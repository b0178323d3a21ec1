//! Fault tolerance: a circuit breaker that stops calls after repeated
//! failures and lets them through again after a pause.
//!
//! Times are nanoseconds on a clock that the caller reads; durations are
//! nanoseconds.
use vstd::prelude::*;
use crate::clock::{elapsed, elapsed_since, now_nanos};
use crate::keyed_map::StrMap;

verus! {

/// Errors that can occur in resilience operations.
#[derive(Debug, Clone)]
pub enum ResilienceError {
    /// The circuit is open: calls are refused.
    CircuitBreakerOpen,
    /// Every attempt failed.
    MaxRetriesExceeded,
    /// The operation took too long or found no room.
    OperationTimeout,
    /// A health check failed.
    HealthCheckFailed(String),
}

/// What a retrying caller does after an attempt.
#[derive(Debug, Clone, Copy, PartialEq, Eq, Structural)]
pub enum RetryStep {
    /// The attempt succeeded: return its result.
    Done,
    /// The attempt failed and attempts are left: wait, then try again.
    Retry,
    /// The attempt failed and it was the last allowed: give up with
    /// `MaxRetriesExceeded`.
    GiveUp,
}

/// The decision after attempt number `attempt` (counted from 1) of at most
/// `max_attempts`: done on success, another try while attempts are left,
/// else give up.
pub fn retry_decision(attempt: usize, max_attempts: usize, succeeded: bool) -> (s: RetryStep)
    ensures
        succeeded ==> s is Done,
        !succeeded && attempt >= max_attempts ==> s is GiveUp,
        !succeeded && attempt < max_attempts ==> s is Retry,
{
    if succeeded {
        RetryStep::Done
    } else if attempt >= max_attempts {
        RetryStep::GiveUp
    } else {
        RetryStep::Retry
    }
}

/// Circuit breaker states.
#[derive(Debug, Clone, Copy, PartialEq, Eq, Structural)]
pub enum CircuitState {
    /// Circuit is closed, allowing requests
    Closed,
    /// Circuit is open, blocking requests
    Open,
    /// Circuit is half-open, allowing limited requests for testing
    HalfOpen,
}

/// Circuit breaker configuration.
#[derive(Debug, Clone, Copy)]
pub struct CircuitBreakerConfig {
    /// Number of failures before opening circuit
    pub failure_threshold: usize,
    /// How long the circuit stays open, in nanoseconds
    pub timeout_duration: u64,
    /// Number of successes needed in half-open state
    pub success_threshold: usize,
    /// Time window for counting failures, in nanoseconds
    pub failure_window: u64,
}

impl CircuitBreakerConfig {
    /// Five failures within a minute open the circuit for thirty seconds;
    /// three successes close it again.
    pub fn default_config() -> (c: CircuitBreakerConfig)
        ensures
            c.failure_threshold == 5,
            c.timeout_duration == 30_000_000_000,
            c.success_threshold == 3,
            c.failure_window == 60_000_000_000,
    {
        CircuitBreakerConfig {
            failure_threshold: 5,
            timeout_duration: 30_000_000_000,
            success_threshold: 3,
            failure_window: 60_000_000_000,
        }
    }
}

/// Circuit breaker metrics.
#[derive(Debug, Clone)]
pub struct CircuitMetrics {
    /// Current state
    pub state: CircuitState,
    /// Failures within the window at the last failure
    pub failure_count: usize,
    /// Successes since the last change to half-open or closed
    pub success_count: usize,
    /// When the last failure happened
    pub last_failure_time: Option<u64>,
    /// How long the circuit has been in its state
    pub state_duration: u64,
}

/// The abstract state of a circuit breaker.
pub struct BreakerView {
    /// Open, half-open or closed
    pub state: CircuitState,
    /// Failures within the window at the last failure
    pub failure_count: nat,
    /// Successes counted
    pub success_count: nat,
    /// When the last failure happened
    pub last_failure: Option<u64>,
    /// When the state last changed
    pub changed_at: u64,
    /// When the failures still tracked happened, oldest first
    pub failures: Seq<u64>,
}

/// How many of the failure times lie within `window` before `now`.
pub open spec fn recent_count(ts: Seq<u64>, now: u64, window: u64) -> nat
    decreases ts.len(),
{
    if ts.len() == 0 {
        0
    } else {
        recent_count(ts.drop_last(), now, window) + if elapsed(ts.last(), now) < window { 1nat } else { 0nat }
    }
}

/// The tracked failures once those older than `window` at `now` are
/// dropped from the front.
pub open spec fn drop_old(ts: Seq<u64>, now: u64, window: u64) -> Seq<u64>
    decreases ts.len(),
{
    if ts.len() > 0 && elapsed(ts[0], now) > window {
        drop_old(ts.drop_first(), now, window)
    } else {
        ts
    }
}

/// What a circuit in `v`, configured by `c`, does with a call at `now`:
/// none when it refuses it, else its state once the call is let through.
/// An open circuit whose pause has run out turns half-open, one whose
/// pause has not refuses; a closed circuit forgets failures older than the
/// window.
pub open spec fn admitted(v: BreakerView, c: CircuitBreakerConfig, now: u64) -> Option<BreakerView> {
    match v.state {
        CircuitState::Open => if elapsed(v.changed_at, now) < c.timeout_duration {
            None
        } else {
            Some(BreakerView { state: CircuitState::HalfOpen, changed_at: now, success_count: 0, ..v })
        },
        CircuitState::HalfOpen => Some(v),
        CircuitState::Closed => Some(BreakerView { failures: drop_old(v.failures, now, c.failure_window), ..v }),
    }
}

/// The state after a success at `now`: a half-open circuit closes once it
/// has seen enough successes.
pub open spec fn after_success(v: BreakerView, c: CircuitBreakerConfig, now: u64) -> BreakerView {
    if v.state == CircuitState::HalfOpen && v.success_count + 1 >= c.success_threshold {
        BreakerView { state: CircuitState::Closed, changed_at: now, failure_count: 0, success_count: 0, ..v }
    } else {
        BreakerView { success_count: v.success_count + 1, ..v }
    }
}

/// The state after a failure at `now`: the failures within the window are
/// counted; a closed circuit opens when they reach the threshold, a
/// half-open one opens at once.
pub open spec fn after_failure(v: BreakerView, c: CircuitBreakerConfig, now: u64) -> BreakerView {
    let ts = v.failures.push(now);
    let count = recent_count(ts, now, c.failure_window);
    let opens = (v.state == CircuitState::Closed && count >= c.failure_threshold) || v.state
        == CircuitState::HalfOpen;
    BreakerView {
        state: if opens { CircuitState::Open } else { v.state },
        changed_at: if opens { now } else { v.changed_at },
        failure_count: count,
        last_failure: Some(now),
        failures: ts,
        ..v
    }
}

/// A failure recorded while the circuit is half-open opens it again,
/// stamped at the time of the failure, and so a call within the pause that
/// follows is refused; a failure while open leaves it open, its stamp
/// unchanged.
pub proof fn lemma_failure_while_half_open_reopens(v: BreakerView, c: CircuitBreakerConfig, now: u64, later: u64)
    ensures
        v.state == CircuitState::HalfOpen ==> after_failure(v, c, now).state == CircuitState::Open
            && after_failure(v, c, now).changed_at == now,
        v.state == CircuitState::HalfOpen && elapsed(now, later) < c.timeout_duration ==> admitted(
            after_failure(v, c, now),
            c,
            later,
        ) is None,
        v.state == CircuitState::Open ==> after_failure(v, c, now).state == CircuitState::Open
            && after_failure(v, c, now).changed_at == v.changed_at,
{
}

/// An open circuit refuses calls until its pause has run since it opened,
/// and then lets a call through half-open, stamped at that time; a
/// half-open circuit closes on the success that reaches the threshold.
pub proof fn lemma_open_pause_and_recovery(v: BreakerView, c: CircuitBreakerConfig, now: u64)
    ensures
        v.state == CircuitState::Open ==> ((admitted(v, c, now) is None) <==> elapsed(v.changed_at, now)
            < c.timeout_duration),
        v.state == CircuitState::Open && elapsed(v.changed_at, now) >= c.timeout_duration ==> admitted(v, c, now)
            == Some(BreakerView { state: CircuitState::HalfOpen, changed_at: now, success_count: 0, ..v }),
        v.state == CircuitState::HalfOpen && v.success_count + 1 >= c.success_threshold ==> after_success(
            v,
            c,
            now,
        ).state == CircuitState::Closed,
        v.state == CircuitState::HalfOpen && v.success_count + 1 < c.success_threshold ==> after_success(
            v,
            c,
            now,
        ).state == CircuitState::HalfOpen,
{
}

/// A failure recorded while the circuit is closed opens it exactly when
/// the failures within the window, the new one included, reach the
/// threshold; every failure is counted and kept.
pub proof fn lemma_failure_while_closed(v: BreakerView, c: CircuitBreakerConfig, now: u64)
    requires
        v.state == CircuitState::Closed,
    ensures
        (after_failure(v, c, now).state == CircuitState::Open) <==> recent_count(
            v.failures.push(now),
            now,
            c.failure_window,
        ) >= c.failure_threshold,
        after_failure(v, c, now).failures == v.failures.push(now),
        after_failure(v, c, now).last_failure == Some(now),
{
}

/// A circuit breaker.
pub struct CircuitBreaker {
    state: CircuitState,
    config: CircuitBreakerConfig,
    failure_count: usize,
    success_count: usize,
    last_failure_time: Option<u64>,
    state_changed_at: u64,
    failure_timestamps: Vec<u64>,
}

impl CircuitBreaker {
    /// The abstract state.
    pub closed spec fn view(&self) -> BreakerView {
        BreakerView {
            state: self.state,
            failure_count: self.failure_count as nat,
            success_count: self.success_count as nat,
            last_failure: self.last_failure_time,
            changed_at: self.state_changed_at,
            failures: self.failure_timestamps@,
        }
    }

    /// The configuration.
    pub closed spec fn config_view(&self) -> CircuitBreakerConfig {
        self.config
    }

    /// A closed breaker whose state changed at `now`.
    pub fn new_at(config: CircuitBreakerConfig, now: u64) -> (b: CircuitBreaker)
        ensures
            b.config_view() == config,
            b.view().state == CircuitState::Closed,
            b.view().failure_count == 0,
            b.view().success_count == 0,
            b.view().last_failure is None,
            b.view().changed_at == now,
            b.view().failures.len() == 0,
    {
        CircuitBreaker {
            state: CircuitState::Closed,
            config,
            failure_count: 0,
            success_count: 0,
            last_failure_time: None,
            state_changed_at: now,
            failure_timestamps: Vec::new(),
        }
    }

    /// A closed breaker, its state changed now.
    pub fn new(config: CircuitBreakerConfig) -> (b: CircuitBreaker)
        ensures
            b.config_view() == config,
            b.view().state == CircuitState::Closed,
            b.view().failure_count == 0,
            b.view().success_count == 0,
            b.view().last_failure is None,
            b.view().failures.len() == 0,
    {
        Self::new_at(config, now_nanos())
    }

    /// The current state.
    pub fn get_state(&self) -> (s: CircuitState)
        ensures
            s == self.view().state,
    {
        self.state
    }

    /// Opens the circuit at `now`.
    fn transition_to_open(&mut self, now: u64)
        ensures
            final(self).view() == (BreakerView {
                state: CircuitState::Open,
                changed_at: now,
                ..old(self).view()
            }),
            final(self).config_view() == old(self).config_view(),
    {
        self.state = CircuitState::Open;
        self.state_changed_at = now;
    }

    /// Half-opens the circuit at `now`, counting successes afresh.
    fn transition_to_half_open(&mut self, now: u64)
        ensures
            final(self).view() == (BreakerView {
                state: CircuitState::HalfOpen,
                changed_at: now,
                success_count: 0,
                ..old(self).view()
            }),
            final(self).config_view() == old(self).config_view(),
    {
        self.state = CircuitState::HalfOpen;
        self.state_changed_at = now;
        self.success_count = 0;
    }

    /// Closes the circuit at `now`, counting failures and successes afresh.
    fn transition_to_closed(&mut self, now: u64)
        ensures
            final(self).view() == (BreakerView {
                state: CircuitState::Closed,
                changed_at: now,
                failure_count: 0,
                success_count: 0,
                ..old(self).view()
            }),
            final(self).config_view() == old(self).config_view(),
    {
        self.state = CircuitState::Closed;
        self.state_changed_at = now;
        self.failure_count = 0;
        self.success_count = 0;
    }

    /// Drops, from the front, the tracked failures older than the window.
    fn clean_old_failures(&mut self, now: u64)
        ensures
            final(self).view() == (BreakerView {
                failures: drop_old(old(self).view().failures, now, old(self).config_view().failure_window),
                ..old(self).view()
            }),
            final(self).config_view() == old(self).config_view(),
    {
        let window = self.config.failure_window;
        let mut start: usize = 0;
        let ghost ts = self.failure_timestamps@;
        assert(ts.skip(0) =~= ts);
        let mut stop = false;
        while start < self.failure_timestamps.len() && !stop
            invariant
                start <= ts.len(),
                ts == self.failure_timestamps@,
                window == self.config.failure_window,
                drop_old(ts, now, window) == drop_old(ts.skip(start as int), now, window),
                stop ==> start < ts.len() && !(elapsed(ts[start as int], now) > window),
            decreases ts.len() - start, if stop { 0int } else { 1int },
        {
            if elapsed_since(self.failure_timestamps[start], now) > window {
                assert(ts.skip(start as int).drop_first() =~= ts.skip(start + 1));
                start = start + 1;
            } else {
                stop = true;
            }
        }
        let mut kept: Vec<u64> = Vec::new();
        let mut i: usize = start;
        while i < self.failure_timestamps.len()
            invariant
                start <= i <= ts.len(),
                ts == self.failure_timestamps@,
                kept@ == ts.subrange(start as int, i as int),
            decreases ts.len() - i,
        {
            kept.push(self.failure_timestamps[i]);
            assert(kept@ =~= ts.subrange(start as int, i + 1));
            i = i + 1;
        }
        proof {
            assert(ts.subrange(start as int, ts.len() as int) =~= ts.skip(start as int));
            if start < ts.len() {
                assert(ts.skip(start as int)[0] == ts[start as int]);
            }
        }
        self.failure_timestamps = kept;
    }

    /// Decides whether a call may go ahead at `now`: an open circuit whose
    /// pause has run out turns half-open and lets it through, one whose
    /// pause has not refuses it; a closed circuit first forgets failures
    /// older than the window.
    pub fn allow_request(&mut self, now: u64) -> (r: Result<(), ResilienceError>)
        ensures
            final(self).config_view() == old(self).config_view(),
            r is Ok <==> admitted(old(self).view(), old(self).config_view(), now) is Some,
            r matches Err(e) ==> e is CircuitBreakerOpen,
            final(self).view() == match admitted(old(self).view(), old(self).config_view(), now) {
                Some(v) => v,
                None => old(self).view(),
            },
    {
        match self.state {
            CircuitState::Open => {
                if elapsed_since(self.state_changed_at, now) >= self.config.timeout_duration {
                    self.transition_to_half_open(now);
                    Ok(())
                } else {
                    Err(ResilienceError::CircuitBreakerOpen)
                }
            },
            CircuitState::HalfOpen => Ok(()),
            CircuitState::Closed => {
                self.clean_old_failures(now);
                Ok(())
            },
        }
    }

    /// Records a success: a half-open circuit closes once it has seen
    /// enough of them.
    pub fn record_success(&mut self, now: u64)
        requires
            old(self).view().success_count < usize::MAX,
        ensures
            final(self).config_view() == old(self).config_view(),
            final(self).view() == after_success(old(self).view(), old(self).config_view(), now),
    {
        self.success_count = self.success_count + 1;
        if self.state == CircuitState::HalfOpen && self.success_count >= self.config.success_threshold {
            self.transition_to_closed(now);
        }
    }

    /// Records a failure at `now`: the failures within the window are
    /// counted; a closed circuit opens when they reach the threshold, a
    /// half-open one opens at once.
    pub fn record_failure(&mut self, now: u64)
        ensures
            final(self).config_view() == old(self).config_view(),
            final(self).view() == after_failure(old(self).view(), old(self).config_view(), now),
    {
        self.failure_timestamps.push(now);
        let window = self.config.failure_window;
        let mut count: usize = 0;
        let mut i: usize = 0;
        let ghost ts = self.failure_timestamps@;
        while i < self.failure_timestamps.len()
            invariant
                i <= ts.len(),
                ts == self.failure_timestamps@,
                count == recent_count(ts.take(i as int), now, window),
                count <= i,
            decreases ts.len() - i,
        {
            assert(ts.take(i + 1).drop_last() =~= ts.take(i as int));
            if elapsed_since(self.failure_timestamps[i], now) < window {
                count = count + 1;
            }
            i = i + 1;
        }
        assert(ts.take(ts.len() as int) =~= ts);
        self.failure_count = count;
        match self.state {
            CircuitState::Closed => {
                if count >= self.config.failure_threshold {
                    self.transition_to_open(now);
                }
            },
            CircuitState::HalfOpen => {
                self.transition_to_open(now);
            },
            CircuitState::Open => {},
        }
        self.last_failure_time = Some(now);
    }

    /// Runs `operation` under the breaker at `now`: a refused call fails
    /// with `CircuitBreakerOpen` and runs nothing; a call let through runs
    /// once, and its success is recorded and its value returned, or its
    /// failure recorded and `CircuitBreakerOpen` returned.
    pub fn execute<T, E, F: Fn() -> Result<T, E>>(&mut self, operation: F, now: u64) -> (r: Result<T, ResilienceError>)
        requires
            old(self).view().success_count < usize::MAX,
            call_requires(operation, ()),
        ensures
            final(self).config_view() == old(self).config_view(),
            admitted(old(self).view(), old(self).config_view(), now) is None ==> (r matches Err(
                ResilienceError::CircuitBreakerOpen,
            )) && final(self).view() == old(self).view(),
            admitted(old(self).view(), old(self).config_view(), now) matches Some(v) ==> exists|out: Result<T, E>|
                call_ensures(operation, (), out) && match out {
                    Ok(t) => r == Ok::<T, ResilienceError>(t) && final(self).view() == after_success(
                        v,
                        old(self).config_view(),
                        now,
                    ),
                    Err(_) => (r matches Err(ResilienceError::CircuitBreakerOpen)) && final(self).view()
                        == after_failure(v, old(self).config_view(), now),
                },
    {
        match self.allow_request(now) {
            Ok(()) => {},
            Err(e) => {
                return Err(e);
            },
        }
        let out = operation();
        match out {
            Ok(t) => {
                self.record_success(now);
                Ok(t)
            },
            Err(_) => {
                self.record_failure(now);
                Err(ResilienceError::CircuitBreakerOpen)
            },
        }
    }

    /// The metrics at `now`.
    pub fn get_metrics(&self, now: u64) -> (m: CircuitMetrics)
        ensures
            m.state == self.view().state,
            m.failure_count == self.view().failure_count,
            m.success_count == self.view().success_count,
            m.last_failure_time == self.view().last_failure,
            m.state_duration == elapsed(self.view().changed_at, now),
    {
        CircuitMetrics {
            state: self.state,
            failure_count: self.failure_count,
            success_count: self.success_count,
            last_failure_time: self.last_failure_time,
            state_duration: elapsed_since(self.state_changed_at, now),
        }
    }
}

/// Bulkhead metrics.
#[derive(Debug, Clone, Copy)]
pub struct BulkheadMetrics {
    /// Permits free now
    pub available_permits: usize,
    /// Calls that may run at once
    pub max_concurrent: usize,
    /// Calls waiting now
    pub queue_size: usize,
    /// Calls that may wait
    pub max_queue_size: usize,
}

/// Health status.
#[derive(Debug)]
pub struct HealthStatus {
    /// Whether the component is healthy
    pub healthy: bool,
    /// A description
    pub message: String,
    /// Named details
    pub details: StrMap<String>,
}

/// A component whose health can be checked.
pub trait HealthCheck {
    /// The component's health.
    fn check(&self) -> Result<HealthStatus, ResilienceError>;
}

} // verus!
