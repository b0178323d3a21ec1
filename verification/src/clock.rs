//! Reading the system clock.
use vstd::prelude::*;

verus! {

#[verifier::external_type_specification]
#[verifier::external_body]
pub struct ExSystemTime(std::time::SystemTime);

/// `SystemTime::now`: the current time of the system clock. Nothing is
/// promised of it: the clock can be set to any time.
#[verifier::external_body]
fn system_now() -> std::time::SystemTime {
    std::time::SystemTime::now()
}

/// `SystemTime::duration_since(UNIX_EPOCH)`, in whole nanoseconds; none for
/// a time before the epoch. Nothing is promised of the value, which comes
/// from the clock.
#[verifier::external_body]
fn nanos_since_epoch(t: std::time::SystemTime) -> Option<u128> {
    match t.duration_since(std::time::UNIX_EPOCH) {
        Ok(d) => Some(d.as_nanos()),
        Err(_) => None,
    }
}

/// Nanoseconds since the Unix epoch, 0 for a clock set before it, and the
/// largest `u64` past that.
pub fn now_nanos() -> (n: u64) {
    match nanos_since_epoch(system_now()) {
        Some(n) => {
            if n > 0xffff_ffff_ffff_ffffu128 {
                0xffff_ffff_ffff_ffffu64
            } else {
                n as u64
            }
        },
        None => 0,
    }
}

/// Whole seconds since the Unix epoch.
pub fn current_timestamp() -> (s: u64)
    ensures
        s <= u64::MAX / 1_000_000_000,
{
    now_nanos() / 1_000_000_000
}

/// Milliseconds since the Unix epoch, 0 for a clock set before it.
pub fn now_millis() -> (ms: i64)
    ensures
        0 <= ms <= u64::MAX / 1_000_000,
{
    (now_nanos() / 1_000_000) as i64
}

/// The time since `earlier` at `now`; zero when `now` is earlier.
pub open spec fn elapsed(earlier: u64, now: u64) -> u64 {
    if now >= earlier {
        (now - earlier) as u64
    } else {
        0
    }
}

/// The time since `earlier` at `now`; zero when `now` is earlier.
pub fn elapsed_since(earlier: u64, now: u64) -> (d: u64)
    ensures
        d == elapsed(earlier, now),
{
    if now >= earlier {
        now - earlier
    } else {
        0
    }
}

/// Measures the time an operation takes.
pub struct Timer {
    start: u64,
}

impl Timer {
    /// The time the timer started, in nanoseconds since the epoch.
    pub closed spec fn started(&self) -> u64 {
        self.start
    }

    /// A timer started now.
    pub fn start() -> (t: Timer) {
        Timer { start: now_nanos() }
    }

    /// A timer started at `now`.
    pub fn start_at(now: u64) -> (t: Timer)
        ensures
            t.started() == now,
    {
        Timer { start: now }
    }

    /// Nanoseconds elapsed at `now`.
    pub fn elapsed_nanos(&self, now: u64) -> (d: u64)
        ensures
            d == elapsed(self.started(), now),
    {
        elapsed_since(self.start, now)
    }
}

} // verus!
