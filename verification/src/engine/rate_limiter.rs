//! Rate limiting: a token bucket that holds at most `max` tokens, refills
//! `max` tokens per window, and gives one per execution.
//!
//! Tokens are counted exactly in units of one nanosecond-window share: a
//! whole token is `window_ns` units and each nanosecond adds `max` units.
//! Times are nanoseconds on a clock that the caller reads.
use vstd::prelude::*;
use crate::clock::{elapsed, elapsed_since};
use crate::text::{dec_string, decimal_string, push_str};

verus! {

/// Errors that can occur during rate limiting.
#[derive(Debug, Clone)]
pub enum RateLimitError {
    /// Too many requests, with details.
    RateLimitExceeded(String),
    /// No permit came in time.
    Timeout,
    /// The limiter is shutting down.
    ShuttingDown,
    /// The semaphore was closed.
    SemaphoreClosed,
}

/// A token bucket.
#[derive(Debug, Clone, Copy)]
pub struct TokenBucket {
    /// The tokens held, in units.
    pub tokens: u128,
    /// The most units held: `max` whole tokens.
    pub capacity: u128,
    /// Units added per nanosecond: `max`.
    pub rate: u128,
    /// Units in one whole token: the window's length in nanoseconds.
    pub unit: u128,
    /// When the bucket was last refilled.
    pub last_refill: u64,
}

/// The units held after refilling `tokens` for `elapsed_ns` nanoseconds.
pub open spec fn refilled(tokens: int, capacity: int, rate: int, elapsed_ns: int) -> int {
    if tokens + elapsed_ns * rate >= capacity {
        capacity
    } else {
        tokens + elapsed_ns * rate
    }
}

/// Division rounded up.
pub open spec fn ceil_div(a: int, b: int) -> int {
    (a + b - 1) / b
}

impl TokenBucket {
    /// The bucket's shape holds: `max` whole tokens at most, refilled at
    /// `max` units per nanosecond, with no more than the capacity held.
    pub open spec fn wf(&self) -> bool {
        &&& self.rate <= u64::MAX
        &&& self.unit <= u64::MAX
        &&& self.capacity == self.rate * self.unit
        &&& self.tokens <= self.capacity
    }

    /// A full bucket of `max` tokens per window of `window_ns` nanoseconds,
    /// last refilled at `now`.
    pub fn new_at(max: u64, window_ns: u64, now: u64) -> (b: TokenBucket)
        ensures
            b.wf(),
            b.rate == max,
            b.unit == window_ns,
            b.capacity == max * window_ns,
            b.tokens == b.capacity,
            b.last_refill == now,
    {
        let rate = max as u128;
        let unit = window_ns as u128;
        assert(rate * unit <= u64::MAX * u64::MAX) by (nonlinear_arith)
            requires
                rate <= u64::MAX,
                unit <= u64::MAX,
        ;
        let capacity = rate * unit;
        TokenBucket { tokens: capacity, capacity, rate, unit, last_refill: now }
    }

    /// Adds the units earned since the last refill, up to the capacity;
    /// a clock earlier than the last refill adds nothing.
    pub fn refill_at(&mut self, now: u64)
        requires
            old(self).wf(),
        ensures
            final(self).wf(),
            final(self).tokens == refilled(
                old(self).tokens as int,
                old(self).capacity as int,
                old(self).rate as int,
                elapsed(old(self).last_refill, now) as int,
            ),
            final(self).last_refill == now,
            final(self).capacity == old(self).capacity,
            final(self).rate == old(self).rate,
            final(self).unit == old(self).unit,
    {
        let e = elapsed_since(self.last_refill, now) as u128;
        assert(e * self.rate <= u64::MAX * u64::MAX) by (nonlinear_arith)
            requires
                e <= u64::MAX,
                self.rate <= u64::MAX,
        ;
        let add = e * self.rate;
        if add >= self.capacity - self.tokens {
            self.tokens = self.capacity;
        } else {
            self.tokens = self.tokens + add;
        }
        self.last_refill = now;
    }

    /// Refills at `now`, then takes one whole token if there is one; a
    /// bucket that refills nothing never holds one (with an empty window
    /// and a positive rate, a token is always at hand).
    pub fn try_consume_at(&mut self, now: u64) -> (taken: bool)
        requires
            old(self).wf(),
        ensures
            final(self).wf(),
            ({
                let t = refilled(
                    old(self).tokens as int,
                    old(self).capacity as int,
                    old(self).rate as int,
                    elapsed(old(self).last_refill, now) as int,
                );
                &&& taken == (old(self).rate > 0 && t >= old(self).unit)
                &&& final(self).tokens == if taken { t - old(self).unit } else { t }
            }),
            final(self).last_refill == now,
            final(self).capacity == old(self).capacity,
            final(self).rate == old(self).rate,
            final(self).unit == old(self).unit,
    {
        self.refill_at(now);
        if self.rate > 0 && self.tokens >= self.unit {
            self.tokens = self.tokens - self.unit;
            true
        } else {
            false
        }
    }

    /// How many nanoseconds until a whole token is held: none when one is
    /// held now, else the missing units at the refill rate, rounded up.
    pub fn wait_nanos(&self) -> (w: u128)
        requires
            self.wf(),
            self.rate > 0,
        ensures
            self.tokens >= self.unit ==> w == 0,
            self.tokens < self.unit ==> w == ceil_div(self.unit - self.tokens, self.rate as int),
    {
        if self.tokens >= self.unit {
            0
        } else {
            let missing = self.unit - self.tokens;
            (missing + self.rate - 1) / self.rate
        }
    }
}

/// Refilling for one stretch of time and then for another gives what
/// refilling once for both together gives: tokens accrue with time alone,
/// however often the bucket is refilled.
pub proof fn lemma_refill_composes(tokens: int, capacity: int, rate: int, e1: int, e2: int)
    requires
        0 <= tokens <= capacity,
        rate >= 0,
        e1 >= 0,
        e2 >= 0,
    ensures
        refilled(refilled(tokens, capacity, rate, e1), capacity, rate, e2) == refilled(
            tokens,
            capacity,
            rate,
            e1 + e2,
        ),
{
    assert((e1 + e2) * rate == e1 * rate + e2 * rate) by (nonlinear_arith);
    assert(e1 * rate >= 0 && e2 * rate >= 0) by (nonlinear_arith)
        requires
            e1 >= 0,
            e2 >= 0,
            rate >= 0,
    ;
}

/// Refilling never loses tokens, never passes the capacity, adds nothing
/// when no time has passed, and fills the bucket once enough time has.
pub proof fn lemma_refill_bounds(tokens: int, capacity: int, rate: int, e: int)
    requires
        0 <= tokens <= capacity,
        rate >= 0,
        e >= 0,
    ensures
        tokens <= refilled(tokens, capacity, rate, e) <= capacity,
        refilled(tokens, capacity, rate, 0) == tokens,
        tokens + e * rate >= capacity ==> refilled(tokens, capacity, rate, e) == capacity,
        tokens + e * rate < capacity ==> refilled(tokens, capacity, rate, e) - tokens == e * rate,
{
    assert(e * rate >= 0) by (nonlinear_arith)
        requires
            e >= 0,
            rate >= 0,
    ;
}

/// A bucket short of a whole token holds one once the wait it advertises
/// has passed since its last refill: after `acquire_step` answers
/// `WaitNanos(w)` at `now`, a try at `now + w` or later is granted.
pub proof fn lemma_wait_then_acquire(b: TokenBucket, now: u64)
    requires
        b.wf(),
        b.rate > 0,
        b.tokens < b.unit,
        elapsed(b.last_refill, now) >= ceil_div(b.unit - b.tokens, b.rate as int),
    ensures
        refilled(b.tokens as int, b.capacity as int, b.rate as int, elapsed(b.last_refill, now) as int)
            >= b.unit,
{
    let a: int = b.unit - b.tokens;
    let r: int = b.rate as int;
    let w: int = ceil_div(a, r);
    let e: int = elapsed(b.last_refill, now) as int;
    assert(w * r >= a) by (nonlinear_arith)
        requires
            w == (a + r - 1) / r,
            r > 0,
            a > 0,
    ;
    assert(e * r >= w * r) by (nonlinear_arith)
        requires
            e >= w,
            r > 0,
    ;
    assert(b.capacity >= b.unit) by (nonlinear_arith)
        requires
            b.capacity == b.rate * b.unit,
            b.rate > 0,
            b.unit >= 0,
    ;
}

/// What a limiter tells a caller who asks for a permit.
#[derive(Debug, Clone, Copy, PartialEq, Eq, Structural)]
pub enum AcquireStep {
    /// A token was taken: take a concurrency permit and go.
    Granted,
    /// No token: wait this many nanoseconds and ask once more.
    WaitNanos(u128),
}

/// Limits executions to `max_executions` per window.
#[derive(Debug, Clone, Copy)]
pub struct RateLimiter {
    /// Executions allowed per window
    pub max_executions: u64,
    /// The window, in nanoseconds
    pub window_ns: u64,
    /// The token bucket
    pub bucket: TokenBucket,
}

/// How `Debug` writes a duration of `ns` nanoseconds.
pub uninterp spec fn duration_debug_text(ns: u64) -> Seq<char>;

/// `format!("{:?}", Duration::from_nanos(ns))` of std: the `Debug` text of
/// a duration of `ns` nanoseconds. The contract names the result
/// `duration_debug_text` of `ns` and says nothing more of it.
#[verifier::external_body]
fn duration_debug(ns: u64) -> (s: String)
    ensures
        s@ == duration_debug_text(ns),
{
    format!("{:?}", std::time::Duration::from_nanos(ns))
}

/// The message of a refused immediate permit: none of `max` left in the
/// window.
pub open spec fn exceeded_message(max: u64, window_ns: u64) -> Seq<char> {
    "Rate limit exceeded: 0/"@ + dec_string(max as nat) + " per "@ + duration_debug_text(window_ns)
}

/// The message of a permit refused after waiting once.
pub open spec fn unavailable_message() -> Seq<char> {
    "Unable to acquire rate limit permit"@
}

/// The message of a refused immediate permit.
fn exceeded_text(max: u64, window_ns: u64) -> (m: String)
    ensures
        m@ == exceeded_message(max, window_ns),
{
    let mut m = String::new();
    push_str(&mut m, "Rate limit exceeded: 0/");
    push_str(&mut m, decimal_string(max).as_str());
    push_str(&mut m, " per ");
    push_str(&mut m, duration_debug(window_ns).as_str());
    m
}

impl RateLimiter {
    /// A limiter of `max_executions` per window of `window_ns`
    /// nanoseconds, with a full bucket at `now`.
    pub fn new_at(max_executions: u64, window_ns: u64, now: u64) -> (l: RateLimiter)
        ensures
            l.bucket.wf(),
            l.max_executions == max_executions,
            l.window_ns == window_ns,
            l.bucket.rate == max_executions,
            l.bucket.unit == window_ns,
            l.bucket.tokens == l.bucket.capacity,
            l.bucket.last_refill == now,
    {
        RateLimiter { max_executions, window_ns, bucket: TokenBucket::new_at(max_executions, window_ns, now) }
    }

    /// Takes a token at `now` if there is one; otherwise a refusal, and the
    /// bucket only refilled.
    pub fn try_acquire_at(&mut self, now: u64) -> (r: Result<(), RateLimitError>)
        requires
            old(self).bucket.wf(),
        ensures
            final(self).bucket.wf(),
            ({
                let t = refilled(
                    old(self).bucket.tokens as int,
                    old(self).bucket.capacity as int,
                    old(self).bucket.rate as int,
                    elapsed(old(self).bucket.last_refill, now) as int,
                );
                &&& r is Ok == (old(self).bucket.rate > 0 && t >= old(self).bucket.unit)
                &&& final(self).bucket.tokens == if r is Ok { t - old(self).bucket.unit } else { t }
            }),
            r matches Err(e) ==> e matches RateLimitError::RateLimitExceeded(m) && m@ == exceeded_message(
                old(self).max_executions,
                old(self).window_ns,
            ),
            final(self).max_executions == old(self).max_executions,
            final(self).window_ns == old(self).window_ns,
            final(self).bucket.last_refill == now,
            final(self).bucket.unit == old(self).bucket.unit,
            final(self).bucket.rate == old(self).bucket.rate,
    {
        if self.bucket.try_consume_at(now) {
            Ok(())
        } else {
            Err(RateLimitError::RateLimitExceeded(exceeded_text(self.max_executions, self.window_ns)))
        }
    }

    /// The second try of a waiting acquire, at `now`: takes a token if
    /// there is one; otherwise a refusal that says no permit could be had,
    /// and the bucket only refilled.
    pub fn retry_acquire_at(&mut self, now: u64) -> (r: Result<(), RateLimitError>)
        requires
            old(self).bucket.wf(),
        ensures
            final(self).bucket.wf(),
            ({
                let t = refilled(
                    old(self).bucket.tokens as int,
                    old(self).bucket.capacity as int,
                    old(self).bucket.rate as int,
                    elapsed(old(self).bucket.last_refill, now) as int,
                );
                &&& r is Ok == (old(self).bucket.rate > 0 && t >= old(self).bucket.unit)
                &&& final(self).bucket.tokens == if r is Ok { t - old(self).bucket.unit } else { t }
            }),
            r matches Err(e) ==> e matches RateLimitError::RateLimitExceeded(m) && m@ == unavailable_message(),
            final(self).max_executions == old(self).max_executions,
            final(self).window_ns == old(self).window_ns,
            final(self).bucket.last_refill == now,
            final(self).bucket.unit == old(self).bucket.unit,
            final(self).bucket.rate == old(self).bucket.rate,
    {
        if self.bucket.try_consume_at(now) {
            Ok(())
        } else {
            let mut m = String::new();
            push_str(&mut m, "Unable to acquire rate limit permit");
            Err(RateLimitError::RateLimitExceeded(m))
        }
    }

    /// One round of acquiring at `now`: a token taken, or how long to wait
    /// before the next round (a bucket that refills nothing has no such
    /// time).
    pub fn acquire_step(&mut self, now: u64) -> (s: AcquireStep)
        requires
            old(self).bucket.wf(),
            old(self).bucket.rate > 0,
        ensures
            final(self).bucket.wf(),
            ({
                let t = refilled(
                    old(self).bucket.tokens as int,
                    old(self).bucket.capacity as int,
                    old(self).bucket.rate as int,
                    elapsed(old(self).bucket.last_refill, now) as int,
                );
                &&& (s is Granted) == (t >= old(self).bucket.unit)
                &&& s is Granted ==> final(self).bucket.tokens == t - old(self).bucket.unit
                &&& s matches AcquireStep::WaitNanos(w) ==> final(self).bucket.tokens == t && w == ceil_div(
                    old(self).bucket.unit - t,
                    old(self).bucket.rate as int,
                )
            }),
            final(self).bucket.last_refill == now,
            final(self).bucket.unit == old(self).bucket.unit,
            final(self).bucket.rate == old(self).bucket.rate,
            final(self).max_executions == old(self).max_executions,
            final(self).window_ns == old(self).window_ns,
    {
        if self.bucket.try_consume_at(now) {
            AcquireStep::Granted
        } else {
            AcquireStep::WaitNanos(self.bucket.wait_nanos())
        }
    }
}

} // verus!
