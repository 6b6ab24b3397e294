//! Retry strategies for connection attempts.
//!
//! How long to wait before a retry grows from one retry to the next. The caller works
//! the growth out and hands it in as a number of milliseconds; what is made of it, and
//! when to give up, is decided here.

use crate::common;
use crate::ext::time;
use std::time::Duration;
use vstd::prelude::*;

verus! {

/// Configuration for retry behavior.
#[derive(Debug)]
pub struct RetryConfig {
    /// Initial delay between retries
    pub initial_delay: Duration,
    /// Maximum delay between retries
    pub max_delay: Duration,
    /// Maximum number of retries (0 = infinite)
    pub max_retries: usize,
}

impl Clone for RetryConfig {
    fn clone(&self) -> (c: Self)
        ensures
            c == *self,
    {
        RetryConfig {
            initial_delay: self.initial_delay,
            max_delay: self.max_delay,
            max_retries: self.max_retries,
        }
    }
}

/// Whether a configuration has the default values.
pub open spec fn is_default_retry(c: RetryConfig) -> bool {
    &&& time::duration_nanos(c.initial_delay) == 100_000_000
    &&& time::duration_nanos(c.max_delay) == 30_000_000_000
    &&& c.max_retries == 5
}

impl Default for RetryConfig {
    fn default() -> (c: Self)
        ensures
            is_default_retry(c),
    {
        RetryConfig {
            initial_delay: Duration::from_millis(100),
            max_delay: Duration::from_secs(30),
            max_retries: 5,
        }
    }
}

impl RetryConfig {
    /// Create a new config with default values.
    pub fn new() -> (c: Self)
        ensures
            is_default_retry(c),
    {
        Self::default()
    }

    /// Set the initial delay.
    pub fn with_initial_delay(self, delay: Duration) -> (c: Self)
        ensures
            c == (RetryConfig { initial_delay: delay, ..self }),
    {
        RetryConfig { initial_delay: delay, ..self }
    }

    /// Set the maximum delay.
    pub fn with_max_delay(self, delay: Duration) -> (c: Self)
        ensures
            c == (RetryConfig { max_delay: delay, ..self }),
    {
        RetryConfig { max_delay: delay, ..self }
    }

    /// Set the maximum number of retries.
    pub fn with_max_retries(self, retries: usize) -> (c: Self)
        ensures
            c == (RetryConfig { max_retries: retries, ..self }),
    {
        RetryConfig { max_retries: retries, ..self }
    }
}

/// Whether another retry is allowed after so many attempts.
pub open spec fn may_retry(config: RetryConfig, attempts: nat) -> bool {
    config.max_retries == 0 || attempts < config.max_retries
}

/// The delay before a retry in milliseconds: what it has grown to, capped by the
/// longest delay and by what a `u64` holds.
pub open spec fn delay_ms(config: RetryConfig, grown_ms: u64) -> int {
    let longest = time::duration_nanos(config.max_delay) as int / 1_000_000;
    if longest < grown_ms {
        longest
    } else {
        grown_ms as int
    }
}

/// A delay is never longer than the longest one.
pub proof fn delay_is_capped(config: RetryConfig, grown_ms: u64)
    ensures
        0 <= delay_ms(config, grown_ms) * 1_000_000 <= time::duration_nanos(config.max_delay),
{
}

/// A retry policy for connection attempts.
#[derive(Debug)]
pub struct RetryPolicy {
    config: RetryConfig,
    attempts: usize,
}

impl Clone for RetryPolicy {
    fn clone(&self) -> (p: Self)
        ensures
            p == *self,
    {
        RetryPolicy { config: self.config.clone(), attempts: self.attempts }
    }
}

impl RetryPolicy {
    /// The configuration.
    pub closed spec fn configured(self) -> RetryConfig {
        self.config
    }

    /// The number of attempts made.
    pub closed spec fn made(self) -> usize {
        self.attempts
    }

    /// Create a new retry policy.
    pub fn new(config: RetryConfig) -> (p: Self)
        ensures
            p.configured() == config,
            p.made() == 0,
    {
        RetryPolicy { config, attempts: 0 }
    }

    /// Check if we should retry.
    pub fn should_retry(&self) -> (r: bool)
        ensures
            r == may_retry(self.configured(), self.made() as nat),
    {
        let max_retries: usize = self.config.max_retries;
        if max_retries == 0 {
            return true;
        }
        self.attempts < max_retries
    }

    /// Get the delay before the next retry, where the initial delay has grown to so many
    /// milliseconds.
    pub fn next_delay(&self, grown_ms: u64) -> (r: Option<Duration>)
        ensures
            r is Some <==> may_retry(self.configured(), self.made() as nat),
            r is Some ==> time::duration_nanos(r->Some_0) == delay_ms(
                self.configured(),
                grown_ms,
            ) * 1_000_000,
    {
        if !self.should_retry() {
            return None;
        }
        let longest: u128 = self.config.max_delay.as_millis();
        if longest < grown_ms as u128 {
            Some(Duration::from_millis(longest as u64))
        } else {
            Some(Duration::from_millis(grown_ms))
        }
    }

    /// Record a retry attempt.
    pub fn record_attempt(&mut self)
        requires
            old(self).made() < usize::MAX,
        ensures
            final(self).made() == old(self).made() + 1,
            final(self).configured() == old(self).configured(),
    {
        self.attempts = self.attempts + 1;
    }

    /// Record a successful operation.
    pub fn record_success(&mut self)
        ensures
            final(self).made() == 0,
            final(self).configured() == old(self).configured(),
    {
        self.attempts = 0;
    }

    /// Get the current number of attempts.
    pub fn attempts(&self) -> (n: usize)
        ensures
            n == self.made(),
    {
        self.attempts
    }

    /// Reset the policy.
    pub fn reset(&mut self)
        ensures
            final(self).made() == 0,
            final(self).configured() == old(self).configured(),
    {
        self.attempts = 0;
    }

    /// Get configuration.
    pub fn config(&self) -> (c: &RetryConfig)
        ensures
            *c == self.configured(),
    {
        &self.config
    }
}

/// Error type for retry operations.
#[derive(Debug)]
pub enum RetryError<E> {
    /// Maximum retries exceeded
    MaxRetriesExceeded {
        /// Number of attempts made
        attempts: usize,
        /// The last error that occurred
        last_error: E,
    },
    /// The operation was cancelled
    Cancelled,
}

impl<E> RetryError<E> {
    /// The text of the error for a reader.
    pub fn message(&self) -> (s: String)
        ensures
            s@ == (match *self {
                RetryError::MaxRetriesExceeded { attempts, last_error } => "max retries ("@
                    + common::decimal(attempts as nat) + ") exceeded"@,
                RetryError::Cancelled => "operation cancelled"@,
            }),
    {
        match self {
            RetryError::MaxRetriesExceeded { attempts, last_error } => {
                "max retries (".to_owned().concat(common::decimal_text(*attempts).as_str()).concat(
                    ") exceeded",
                )
            },
            RetryError::Cancelled => "operation cancelled".to_owned(),
        }
    }
}

/// What comes after a try of an operation.
pub enum RetryStep<T, E> {
    /// The operation is over
    Done(std::result::Result<T, RetryError<E>>),
    /// The operation is tried again after a delay
    Wait(Duration),
}

/// A retry wrapper for operations that may fail.
///
/// The caller tries the operation, hands in how it ended, and does what it is told.
pub struct RetryOperation {
    policy: RetryPolicy,
}

impl RetryOperation {
    /// The policy.
    pub closed spec fn by_policy(self) -> RetryPolicy {
        self.policy
    }

    /// Create a new retry operation.
    pub fn new(config: RetryConfig) -> (o: Self)
        ensures
            o.by_policy().configured() == config,
            o.by_policy().made() == 0,
    {
        RetryOperation { policy: RetryPolicy::new(config) }
    }

    /// Decide what to do after a try, where the initial delay has grown to so many
    /// milliseconds.
    ///
    /// A success ends the operation and forgets the attempts. A failure ends it once no
    /// retry is left; until that point it counts as an attempt, and a delay follows.
    pub fn step<T, E>(&mut self, outcome: std::result::Result<T, E>, grown_ms: u64) -> (r:
        RetryStep<T, E>)
        requires
            old(self).by_policy().made() < usize::MAX,
        ensures
            final(self).by_policy().configured() == old(self).by_policy().configured(),
            match outcome {
                Ok(value) => {
                    &&& r == RetryStep::<T, E>::Done(Ok(value))
                    &&& final(self).by_policy().made() == 0
                },
                Err(e) => {
                    let policy = old(self).by_policy();
                    if may_retry(policy.configured(), policy.made() as nat) {
                        &&& r is Wait
                        &&& time::duration_nanos(r->Wait_0) == delay_ms(
                            policy.configured(),
                            grown_ms,
                        ) * 1_000_000
                        &&& final(self).by_policy().made() == policy.made() + 1
                    } else {
                        &&& r == RetryStep::<T, E>::Done(
                            Err(
                                RetryError::MaxRetriesExceeded {
                                    attempts: policy.made(),
                                    last_error: e,
                                },
                            ),
                        )
                        &&& final(self).by_policy().made() == policy.made()
                    }
                },
            },
    {
        match outcome {
            Ok(value) => {
                self.policy.record_success();
                RetryStep::Done(Ok(value))
            },
            Err(e) => {
                match self.policy.next_delay(grown_ms) {
                    Some(delay) => {
                        self.policy.record_attempt();
                        RetryStep::Wait(delay)
                    },
                    None => RetryStep::Done(
                        Err(
                            RetryError::MaxRetriesExceeded {
                                attempts: self.policy.attempts(),
                                last_error: e,
                            },
                        ),
                    ),
                }
            },
        }
    }

    /// Get the underlying policy.
    pub fn policy(&self) -> (p: &RetryPolicy)
        ensures
            *p == self.by_policy(),
    {
        &self.policy
    }

    /// Reset the policy.
    pub fn reset(&mut self)
        ensures
            final(self).by_policy().made() == 0,
            final(self).by_policy().configured() == old(self).by_policy().configured(),
    {
        self.policy.reset();
    }
}

/// How often an operation that always fails is tried, from a number of attempts on.
pub open spec fn tries(config: RetryConfig, attempts: nat) -> nat
    decreases config.max_retries - attempts,
{
    if config.max_retries > 0 && may_retry(config, attempts) {
        1 + tries(config, attempts + 1)
    } else {
        1
    }
}

/// With a limit on retries, an operation that always fails is tried once and then as
/// often as there are retries; no more.
pub proof fn failing_operation_ends(config: RetryConfig, attempts: nat)
    requires
        config.max_retries > 0,
        attempts <= config.max_retries,
    ensures
        tries(config, attempts) == config.max_retries - attempts + 1,
    decreases config.max_retries - attempts,
{
    if attempts < config.max_retries {
        failing_operation_ends(config, attempts + 1);
    }
}

/// A retry budget for tracking retry costs.
///
/// The budget counts attempts and does not look at the clock: its time window is over when
/// the caller resets it.
#[derive(Debug)]
pub struct RetryBudget {
    max_retries: usize,
    window: Duration,
    attempts: usize,
}

impl RetryBudget {
    /// Maximum retries per time window.
    pub closed spec fn limit(self) -> usize {
        self.max_retries
    }

    /// The time window.
    pub closed spec fn per(self) -> Duration {
        self.window
    }

    /// Current attempt count.
    pub closed spec fn made(self) -> usize {
        self.attempts
    }

    /// Create a new retry budget.
    pub fn new(max_retries: usize, window: Duration) -> (b: Self)
        ensures
            b.limit() == max_retries,
            b.per() == window,
            b.made() == 0,
    {
        RetryBudget { max_retries, window, attempts: 0 }
    }

    /// Check if a retry is allowed.
    pub fn can_retry(&self) -> (r: bool)
        ensures
            r == (self.made() < self.limit()),
    {
        self.attempts < self.max_retries
    }

    /// Record a retry attempt.
    pub fn record_attempt(&mut self)
        requires
            old(self).made() < usize::MAX,
        ensures
            final(self).made() == old(self).made() + 1,
            final(self).limit() == old(self).limit(),
            final(self).per() == old(self).per(),
    {
        self.attempts = self.attempts + 1;
    }

    /// Get remaining retries.
    pub fn remaining(&self) -> (n: usize)
        ensures
            n == (if self.made() < self.limit() { self.limit() - self.made() } else { 0 }),
            n > 0 <==> self.made() < self.limit(),
    {
        self.max_retries.saturating_sub(self.attempts)
    }

    /// Reset the budget.
    pub fn reset(&mut self)
        ensures
            final(self).made() == 0,
            final(self).limit() == old(self).limit(),
            final(self).per() == old(self).per(),
    {
        self.attempts = 0;
    }
}

/// Whether another try is allowed: always, without a limit on retries, and otherwise while
/// fewer were made than the limit.
pub proof fn retries_are_allowed_up_to_the_limit(p: RetryPolicy, r: bool)
    requires
        call_ensures(RetryPolicy::should_retry, (&p,), r),
    ensures
        r <==> p.configured().max_retries == 0 || p.made() < p.configured().max_retries,
{
}

/// The delay before a retry is what it has grown to, where that is no longer than the
/// longest delay, and otherwise the longest delay in whole milliseconds. There is one if
/// and only if a retry is allowed.
pub proof fn delay_grows_up_to_the_longest(p: RetryPolicy, grown_ms: u64, r: Option<Duration>)
    requires
        call_ensures(RetryPolicy::next_delay, (&p, grown_ms), r),
    ensures
        r is Some <==> p.configured().max_retries == 0 || p.made() < p.configured().max_retries,
        r is Some && grown_ms * 1_000_000 <= time::duration_nanos(p.configured().max_delay)
            ==> time::duration_nanos(r->0) == grown_ms * 1_000_000,
        r is Some && grown_ms * 1_000_000 > time::duration_nanos(p.configured().max_delay) ==> {
            &&& time::duration_nanos(r->0) <= time::duration_nanos(p.configured().max_delay)
            &&& time::duration_nanos(p.configured().max_delay) < time::duration_nanos(r->0)
                + 1_000_000
        },
{
}

/// What comes after a try. A success ends the operation with its value, and the next one
/// starts without attempts. A failure is followed by a wait and counts as an attempt, while
/// a retry is allowed; the one after the last retry ends the operation, with the number of
/// attempts and the error.
pub proof fn operation_is_tried_until_it_works_or_retries_are_used_up<T, E>(
    o: &mut RetryOperation,
    outcome: std::result::Result<T, E>,
    grown_ms: u64,
    r: RetryStep<T, E>,
)
    requires
        call_ensures(RetryOperation::step::<T, E>, (o, outcome, grown_ms), r),
        old(o).by_policy().made() < usize::MAX,
    ensures
        final(o).by_policy().configured() == old(o).by_policy().configured(),
        outcome is Ok ==> {
            &&& r is Done
            &&& r->Done_0 is Ok
            &&& r->Done_0->Ok_0 == outcome->Ok_0
            &&& final(o).by_policy().made() == 0
        },
        outcome is Err ==> {
            let limit = old(o).by_policy().configured().max_retries;
            let made = old(o).by_policy().made();
            &&& r is Wait <==> limit == 0 || made < limit
            &&& r is Wait ==> final(o).by_policy().made() == made + 1
            &&& r is Wait ==> time::duration_nanos(r->Wait_0) <= time::duration_nanos(
                old(o).by_policy().configured().max_delay,
            )
            &&& r is Done ==> {
                &&& r->Done_0 is Err
                &&& r->Done_0->Err_0 is MaxRetriesExceeded
                &&& r->Done_0->Err_0->attempts == made
                &&& r->Done_0->Err_0->last_error == outcome->Err_0
                &&& final(o).by_policy().made() == made
            }
        },
{
}

/// Attempts are counted one by one, and a success or a reset forgets them.
pub proof fn attempts_are_counted(
    recorded: &mut RetryPolicy,
    succeeded: &mut RetryPolicy,
    reset: &mut RetryPolicy,
    config: RetryConfig,
    fresh: RetryPolicy,
)
    requires
        call_ensures(RetryPolicy::record_attempt, (recorded,), ()),
        call_ensures(RetryPolicy::record_success, (succeeded,), ()),
        call_ensures(RetryPolicy::reset, (reset,), ()),
        call_ensures(RetryPolicy::new, (config,), fresh),
        old(recorded).made() < usize::MAX,
    ensures
        final(recorded).made() == old(recorded).made() + 1,
        final(succeeded).made() == 0,
        final(reset).made() == 0,
        fresh.made() == 0,
        fresh.configured() == config,
{
}

/// A budget allows as many retries as it was made for, less those that were recorded since
/// it was made or reset.
pub proof fn budget_is_used_up(
    b: &mut RetryBudget,
    same: RetryBudget,
    allowed: bool,
    left: usize,
)
    requires
        call_ensures(RetryBudget::record_attempt, (b,), ()),
        call_ensures(RetryBudget::can_retry, (&same,), allowed),
        call_ensures(RetryBudget::remaining, (&same,), left),
        old(b).made() < usize::MAX,
    ensures
        final(b).made() == old(b).made() + 1,
        final(b).limit() == old(b).limit(),
        allowed <==> left > 0,
        same.made() <= same.limit() ==> left + same.made() == same.limit(),
        same.made() > same.limit() ==> left == 0,
{
}

/// The retries that are made where nothing else is asked for: five, after a tenth of a
/// second at first and half a minute at most.
pub proof fn default_retries(c: RetryConfig)
    requires
        call_ensures(RetryConfig::new, (), c) || call_ensures(RetryConfig::default, (), c),
    ensures
        time::duration_nanos(c.initial_delay) == 100_000_000,
        time::duration_nanos(c.max_delay) == 30_000_000_000,
        c.max_retries == 5,
{
}

/// Each setting sets what it names and leaves the others.
pub proof fn retry_settings_are_independent(
    c: RetryConfig,
    d: Duration,
    n: usize,
    first: RetryConfig,
    longest: RetryConfig,
    limited: RetryConfig,
)
    requires
        call_ensures(RetryConfig::with_initial_delay, (c, d), first),
        call_ensures(RetryConfig::with_max_delay, (c, d), longest),
        call_ensures(RetryConfig::with_max_retries, (c, n), limited),
    ensures
        first.initial_delay == d && first.max_delay == c.max_delay && first.max_retries
            == c.max_retries,
        longest.max_delay == d && longest.initial_delay == c.initial_delay && longest.max_retries
            == c.max_retries,
        limited.max_retries == n && limited.initial_delay == c.initial_delay && limited.max_delay
            == c.max_delay,
{
}

}
