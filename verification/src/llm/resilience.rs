//! The circuit breaker that guards calls to a language model, and the
//! decision whether a failed call is tried again.

use vstd::prelude::*;
use crate::error::AetherisError;
use crate::runtime::{instant_now, millis_since};

verus! {

/// Where the breaker stands.
#[derive(Debug, Clone, Copy, PartialEq, Eq, Structural)]
pub enum CircuitState {
    /// Calls pass.
    Closed,
    /// Calls are refused until the reset timeout has passed.
    Open,
    /// A few calls pass to probe whether the service is back.
    HalfOpen,
}

/// When the breaker opens, how long it stays open, and how many probes it
/// lets through half-open. The timeout is in milliseconds.
#[derive(Debug, Clone, Copy)]
pub struct CircuitBreakerConfig {
    pub failure_threshold: u32,
    pub reset_timeout_ms: u64,
    pub half_open_max_calls: u32,
}

impl CircuitBreakerConfig {
    /// Five failures open the breaker; it stays open thirty seconds and then
    /// lets one probe through.
    pub fn default() -> (c: CircuitBreakerConfig)
        ensures
            c.failure_threshold == 5,
            c.reset_timeout_ms == 30000,
            c.half_open_max_calls == 1,
    {
        CircuitBreakerConfig { failure_threshold: 5, reset_timeout_ms: 30000, half_open_max_calls: 1 }
    }
}

/// The breaker's counters: failures and successes counted in the current
/// state, the time of the last failure (milliseconds since the epoch), and
/// the probes let through half-open.
#[derive(Debug, Clone, Copy)]
pub struct CircuitBreakerInner {
    pub state: CircuitState,
    pub failure_count: u32,
    pub success_count: u32,
    pub last_failure_time: Option<i64>,
    pub half_open_calls: u32,
}

impl CircuitBreakerInner {
    /// Closed, with nothing counted and no failure seen.
    pub fn new() -> (s: CircuitBreakerInner)
        ensures
            s == (CircuitBreakerInner {
                state: CircuitState::Closed,
                failure_count: 0,
                success_count: 0,
                last_failure_time: None,
                half_open_calls: 0,
            }),
    {
        CircuitBreakerInner {
            state: CircuitState::Closed,
            failure_count: 0,
            success_count: 0,
            last_failure_time: None,
            half_open_calls: 0,
        }
    }
}

/// A circuit breaker: it counts failures while closed, opens when they
/// reach the threshold, refuses calls while open, and after the reset
/// timeout lets probes through half-open, closing again once enough of them
/// succeed.
///
/// Times are whole milliseconds of the monotonic clock since the breaker
/// was made, so setting the system clock does not move them.
pub struct CircuitBreaker {
    config: CircuitBreakerConfig,
    inner: CircuitBreakerInner,
    clock: std::time::Instant,
}

impl View for CircuitBreaker {
    type V = (CircuitBreakerConfig, CircuitBreakerInner, std::time::Instant);

    closed spec fn view(&self) -> (CircuitBreakerConfig, CircuitBreakerInner, std::time::Instant) {
        (self.config, self.inner, self.clock)
    }
}

/// The reset timeout has passed since the last failure, at time `now`.
pub open spec fn timeout_passed(c: CircuitBreakerConfig, last: i64, now: i64) -> bool {
    now - last >= c.reset_timeout_ms
}

/// Whether a call is let through at time `now`, and the counters after.
pub open spec fn allow_step(c: CircuitBreakerConfig, s: CircuitBreakerInner, now: i64) -> (bool, CircuitBreakerInner) {
    match s.state {
        CircuitState::Closed => (true, s),
        CircuitState::Open => match s.last_failure_time {
            Some(last) => if timeout_passed(c, last, now) {
                (true, CircuitBreakerInner { state: CircuitState::HalfOpen, half_open_calls: 0, ..s })
            } else {
                (false, s)
            },
            None => (false, s),
        },
        CircuitState::HalfOpen => (s.half_open_calls < c.half_open_max_calls, s),
    }
}

/// The counters after a call succeeded.
pub open spec fn success_step(c: CircuitBreakerConfig, s: CircuitBreakerInner) -> CircuitBreakerInner {
    match s.state {
        CircuitState::Closed => CircuitBreakerInner { failure_count: 0, success_count: (s.success_count + 1) as u32, ..s },
        CircuitState::HalfOpen => if s.success_count + 1 >= c.half_open_max_calls {
            CircuitBreakerInner {
                state: CircuitState::Closed,
                failure_count: 0,
                success_count: 0,
                half_open_calls: (s.half_open_calls + 1) as u32,
                ..s
            }
        } else {
            CircuitBreakerInner {
                success_count: (s.success_count + 1) as u32,
                half_open_calls: (s.half_open_calls + 1) as u32,
                ..s
            }
        },
        CircuitState::Open => s,
    }
}

/// The counters after a call failed at time `now`.
pub open spec fn failure_step(c: CircuitBreakerConfig, s: CircuitBreakerInner, now: i64) -> CircuitBreakerInner {
    match s.state {
        CircuitState::Closed => CircuitBreakerInner {
            state: if s.failure_count + 1 >= c.failure_threshold { CircuitState::Open } else { CircuitState::Closed },
            failure_count: (s.failure_count + 1) as u32,
            last_failure_time: Some(now),
            ..s
        },
        CircuitState::HalfOpen => CircuitBreakerInner {
            state: CircuitState::Open,
            last_failure_time: Some(now),
            half_open_calls: 0,
            ..s
        },
        CircuitState::Open => CircuitBreakerInner { last_failure_time: Some(now), ..s },
    }
}

/// The counters can take one more success without overflow.
pub open spec fn success_fits(s: CircuitBreakerInner) -> bool {
    s.success_count < u32::MAX && s.half_open_calls < u32::MAX
}

/// The counters can take one more failure without overflow.
pub open spec fn failure_fits(s: CircuitBreakerInner) -> bool {
    s.failure_count < u32::MAX
}

impl CircuitBreaker {
    /// A closed breaker with no failures or successes counted.
    pub fn new(config: CircuitBreakerConfig) -> (cb: CircuitBreaker)
        ensures
            cb@.0 == config,
            cb@.1 == (CircuitBreakerInner {
                state: CircuitState::Closed,
                failure_count: 0,
                success_count: 0,
                last_failure_time: None,
                half_open_calls: 0,
            }),
    {
        CircuitBreaker { config, inner: CircuitBreakerInner::new(), clock: instant_now() }
    }

    /// A closed breaker with the default configuration.
    pub fn default() -> (cb: CircuitBreaker)
        ensures
            cb@.0.failure_threshold == 5,
            cb@.0.reset_timeout_ms == 30000,
            cb@.0.half_open_max_calls == 1,
            cb@.1.state == CircuitState::Closed,
            cb@.1.failure_count == 0,
            cb@.1.success_count == 0,
            cb@.1.last_failure_time is None,
            cb@.1.half_open_calls == 0,
    {
        CircuitBreaker::new(CircuitBreakerConfig::default())
    }

    /// The state the breaker is in.
    pub fn state(&self) -> (s: CircuitState)
        ensures
            s == self@.1.state,
    {
        self.inner.state
    }

    /// The counters.
    pub fn counters(&self) -> (s: CircuitBreakerInner)
        ensures
            s == self@.1,
    {
        self.inner
    }

    /// Whether a call may go through at time `now`: always when closed;
    /// when open, only once the reset timeout has passed since the last
    /// failure, and then the breaker turns half-open; when half-open, while
    /// fewer probes than allowed have gone through.
    pub fn allow_request_at(&mut self, now: i64) -> (r: bool)
        ensures
            final(self)@.0 == old(self)@.0,
            final(self)@.2 == old(self)@.2,
            (r, final(self)@.1) == allow_step(old(self)@.0, old(self)@.1, now),
    {
        match self.inner.state {
            CircuitState::Closed => true,
            CircuitState::Open => match self.inner.last_failure_time {
                Some(last) => {
                    let elapsed: i128 = now as i128 - last as i128;
                    if elapsed >= self.config.reset_timeout_ms as i128 {
                        self.inner.state = CircuitState::HalfOpen;
                        self.inner.half_open_calls = 0;
                        true
                    } else {
                        false
                    }
                },
                None => false,
            },
            CircuitState::HalfOpen => self.inner.half_open_calls < self.config.half_open_max_calls,
        }
    }

    /// Whether a call may go through now, by the breaker's monotonic clock.
    pub fn allow_request(&mut self) -> (r: bool)
        ensures
            final(self)@.0 == old(self)@.0,
            final(self)@.2 == old(self)@.2,
            exists|now: i64| (r, final(self)@.1) == allow_step(old(self)@.0, old(self)@.1, now),
    {
        let now = millis_since(&self.clock);
        self.allow_request_at(now)
    }

    /// Counts a successful call: closed, it clears the failures; half-open,
    /// it counts the probe and closes the breaker once the successes reach
    /// the number of probes allowed; open, it changes nothing.
    pub fn record_success(&mut self)
        requires
            success_fits(old(self)@.1),
        ensures
            final(self)@.0 == old(self)@.0,
            final(self)@.2 == old(self)@.2,
            final(self)@.1 == success_step(old(self)@.0, old(self)@.1),
    {
        match self.inner.state {
            CircuitState::Closed => {
                self.inner.failure_count = 0;
                self.inner.success_count = self.inner.success_count + 1;
            },
            CircuitState::HalfOpen => {
                self.inner.success_count = self.inner.success_count + 1;
                self.inner.half_open_calls = self.inner.half_open_calls + 1;
                if self.inner.success_count >= self.config.half_open_max_calls {
                    self.inner.state = CircuitState::Closed;
                    self.inner.failure_count = 0;
                    self.inner.success_count = 0;
                }
            },
            CircuitState::Open => {},
        }
    }

    /// Counts a failed call at time `now`: closed, it counts the failure and
    /// opens the breaker once the failures reach the threshold; half-open,
    /// it opens the breaker again; open, it only moves the time of the last
    /// failure.
    pub fn record_failure_at(&mut self, now: i64)
        requires
            failure_fits(old(self)@.1),
        ensures
            final(self)@.0 == old(self)@.0,
            final(self)@.2 == old(self)@.2,
            final(self)@.1 == failure_step(old(self)@.0, old(self)@.1, now),
    {
        match self.inner.state {
            CircuitState::Closed => {
                self.inner.failure_count = self.inner.failure_count + 1;
                self.inner.last_failure_time = Some(now);
                if self.inner.failure_count >= self.config.failure_threshold {
                    self.inner.state = CircuitState::Open;
                }
            },
            CircuitState::HalfOpen => {
                self.inner.state = CircuitState::Open;
                self.inner.last_failure_time = Some(now);
                self.inner.half_open_calls = 0;
            },
            CircuitState::Open => {
                self.inner.last_failure_time = Some(now);
            },
        }
    }

    /// Counts a failed call now, by the breaker's monotonic clock.
    pub fn record_failure(&mut self)
        requires
            failure_fits(old(self)@.1),
        ensures
            final(self)@.0 == old(self)@.0,
            final(self)@.2 == old(self)@.2,
            exists|now: i64| final(self)@.1 == failure_step(old(self)@.0, old(self)@.1, now),
    {
        let now = millis_since(&self.clock);
        self.record_failure_at(now);
    }
}

/// The counters after `k` failures in a row, at times `now`, starting from
/// `s`.
pub open spec fn failures(c: CircuitBreakerConfig, s: CircuitBreakerInner, k: nat, now: i64) -> CircuitBreakerInner
    decreases k,
{
    if k == 0 {
        s
    } else {
        failure_step(c, failures(c, s, (k - 1) as nat, now), now)
    }
}

/// A closed breaker whose counted failures are `f` stays closed, with
/// `f + k` failures counted, after `k` more failures while `f + k` stays
/// below the threshold.
proof fn lemma_failures_closed(c: CircuitBreakerConfig, s: CircuitBreakerInner, k: nat, now: i64)
    requires
        s.state == CircuitState::Closed,
        s.failure_count + k < c.failure_threshold,
    ensures
        failures(c, s, k, now).state == CircuitState::Closed,
        failures(c, s, k, now).failure_count == s.failure_count + k,
    decreases k,
{
    if k > 0 {
        lemma_failures_closed(c, s, (k - 1) as nat, now);
    }
}

/// A closed breaker with no failures counted opens after exactly as many
/// failures in a row as the threshold, and not before.
pub proof fn law_opens_at_threshold(c: CircuitBreakerConfig, s: CircuitBreakerInner, now: i64)
    requires
        s.state == CircuitState::Closed,
        s.failure_count == 0,
        c.failure_threshold >= 1,
    ensures
        failures(c, s, c.failure_threshold as nat, now).state == CircuitState::Open,
        forall|k: nat| k < c.failure_threshold ==> (#[trigger] failures(c, s, k, now)).state == CircuitState::Closed,
{
    let t = c.failure_threshold as nat;
    lemma_failures_closed(c, s, (t - 1) as nat, now);
    assert forall|k: nat| k < c.failure_threshold implies (#[trigger] failures(c, s, k, now)).state == CircuitState::Closed by {
        lemma_failures_closed(c, s, k, now);
    }
}

/// An open breaker refuses calls until the reset timeout has passed since
/// its last failure; from then on it lets one through and turns half-open.
pub proof fn law_open_until_timeout(c: CircuitBreakerConfig, s: CircuitBreakerInner, last: i64, now: i64)
    requires
        s.state == CircuitState::Open,
        s.last_failure_time == Some(last),
    ensures
        now - last < c.reset_timeout_ms ==> allow_step(c, s, now) == (false, s),
        now - last >= c.reset_timeout_ms ==> allow_step(c, s, now).0 && allow_step(c, s, now).1.state
            == CircuitState::HalfOpen && allow_step(c, s, now).1.half_open_calls == 0,
{
}

/// A closed breaker lets every call through and stays as it is.
pub proof fn law_closed_allows(c: CircuitBreakerConfig, s: CircuitBreakerInner, now: i64)
    requires
        s.state == CircuitState::Closed,
    ensures
        allow_step(c, s, now) == (true, s),
{
}

/// A failed probe opens a half-open breaker again, stamped with the time of
/// that failure.
pub proof fn law_half_open_failure_reopens(c: CircuitBreakerConfig, s: CircuitBreakerInner, now: i64)
    requires
        s.state == CircuitState::HalfOpen,
    ensures
        failure_step(c, s, now).state == CircuitState::Open,
        failure_step(c, s, now).last_failure_time == Some(now),
{
}

/// In a half-open breaker that has counted no success, as many successful
/// probes as allowed (at least one) close it, with its counters cleared.
pub proof fn law_half_open_successes_close(c: CircuitBreakerConfig, s: CircuitBreakerInner)
    requires
        s.state == CircuitState::HalfOpen,
        s.success_count + 1 >= c.half_open_max_calls,
    ensures
        success_step(c, s).state == CircuitState::Closed,
        success_step(c, s).failure_count == 0,
        success_step(c, s).success_count == 0,
{
}

/// An open breaker ignores successes.
pub proof fn law_open_ignores_success(c: CircuitBreakerConfig, s: CircuitBreakerInner)
    requires
        s.state == CircuitState::Open,
    ensures
        success_step(c, s) == s,
{
}

/// The call's error is worth another try: a model error, a timeout or an
/// internal error.
pub open spec fn retryable(e: AetherisError) -> bool {
    e is Llm || e is Timeout || e is Internal
}

/// The call's error is worth another try: a model error, a timeout or an
/// internal error.
pub fn is_retryable_error(error: &AetherisError) -> (r: bool)
    ensures
        r == retryable(*error),
{
    match error {
        AetherisError::Llm(_) => true,
        AetherisError::Timeout(_) => true,
        AetherisError::Internal(_) => true,
        _ => false,
    }
}

/// What the retry loop does after a failed attempt.
#[derive(Debug, Clone, Copy, PartialEq, Eq, Structural)]
pub enum RetryAction {
    /// Wait out the backoff for this attempt and try again.
    Retry,
    /// Give up with the error.
    GiveUp,
}

/// What follows the failure of attempt `attempt` (from 0) with `error`:
/// another try while attempts remain and the error is retryable.
pub open spec fn retry_decision(attempt: nat, max_retries: nat, error: AetherisError) -> RetryAction {
    if attempt < max_retries && retryable(error) {
        RetryAction::Retry
    } else {
        RetryAction::GiveUp
    }
}

/// A model error, a timeout or an internal error is tried again while
/// attempts remain; any other error, or the last attempt, gives up.
pub proof fn law_transient_errors_retried(attempt: nat, max_retries: nat, m: String, e: AetherisError)
    ensures
        attempt < max_retries ==> retry_decision(attempt, max_retries, AetherisError::Llm(m)) == RetryAction::Retry,
        attempt < max_retries ==> retry_decision(attempt, max_retries, AetherisError::Timeout(m)) == RetryAction::Retry,
        attempt < max_retries ==> retry_decision(attempt, max_retries, AetherisError::Internal(m)) == RetryAction::Retry,
        attempt >= max_retries ==> retry_decision(attempt, max_retries, e) == RetryAction::GiveUp,
        retry_decision(attempt, max_retries, AetherisError::Config(m)) == RetryAction::GiveUp,
        retry_decision(attempt, max_retries, AetherisError::Validation(m)) == RetryAction::GiveUp,
        retry_decision(attempt, max_retries, AetherisError::NotFound(m)) == RetryAction::GiveUp,
        retry_decision(attempt, max_retries, AetherisError::Planning(m)) == RetryAction::GiveUp,
        retry_decision(attempt, max_retries, AetherisError::Agent(m)) == RetryAction::GiveUp,
        retry_decision(attempt, max_retries, AetherisError::Cdn(m)) == RetryAction::GiveUp,
        retry_decision(attempt, max_retries, AetherisError::IntentValidation(m)) == RetryAction::GiveUp,
{
}

/// How many calls a retry loop makes from attempt `attempt` on when every
/// call fails with `error`: it calls, and goes on only while the decision
/// after the failure is to retry.
pub open spec fn calls_while_failing(attempt: nat, max_retries: nat, error: AetherisError) -> nat
    decreases max_retries - attempt,
{
    if retry_decision(attempt, max_retries, error) == RetryAction::Retry {
        1 + calls_while_failing(attempt + 1, max_retries, error)
    } else {
        1
    }
}

/// When every call fails with the same error, a retry loop with `R`
/// retries calls `R + 1` times if the error is retryable, once otherwise.
pub proof fn law_retry_calls(max_retries: nat, error: AetherisError)
    ensures
        calls_while_failing(0, max_retries, error) == if retryable(error) {
            max_retries + 1
        } else {
            1
        },
{
    lemma_calls_from(0, max_retries, error);
}

proof fn lemma_calls_from(attempt: nat, max_retries: nat, error: AetherisError)
    requires
        attempt <= max_retries,
    ensures
        calls_while_failing(attempt, max_retries, error) == if retryable(error) {
            (max_retries - attempt + 1) as nat
        } else {
            1
        },
    decreases max_retries - attempt,
{
    if attempt < max_retries && retryable(error) {
        lemma_calls_from(attempt + 1, max_retries, error);
    }
}

/// After attempt `attempt` (from 0) failed with `error`: another try while
/// attempts remain and the error is retryable.
pub fn after_failed_attempt(attempt: u32, max_retries: u32, error: &AetherisError) -> (a: RetryAction)
    ensures
        a == retry_decision(attempt as nat, max_retries as nat, *error),
{
    if attempt < max_retries && is_retryable_error(error) {
        RetryAction::Retry
    } else {
        RetryAction::GiveUp
    }
}

} // verus!
