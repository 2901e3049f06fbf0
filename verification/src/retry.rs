//! Retry configuration, backoff delays and the decisions of a retry loop.
//!
//! The loop itself sleeps and runs the caller's operation, so it lives with
//! the caller; what it decides after each failure is decided here.

use crate::time::Duration;
use vstd::prelude::*;

verus! {

/// The bits of the floating-point number 2.0, the usual multiplier.
pub const DOUBLING: u64 = 0x4000_0000_0000_0000;

/// Backoff strategy for retries.
#[derive(Debug, Clone, Copy, PartialEq, Eq)]
pub enum BackoffStrategy {
    /// No delay between retries.
    NoDelay,
    /// Constant delay between retries.
    Constant(Duration),
    /// Linear backoff: delay increases linearly.
    Linear {
        /// Initial delay.
        initial: Duration,
        /// Increment per attempt.
        increment: Duration,
        /// Maximum delay.
        max: Duration,
    },
    /// Exponential backoff: delay is multiplied each attempt.
    Exponential {
        /// Initial delay.
        initial: Duration,
        /// Maximum delay.
        max: Duration,
        /// Multiplier (typically 2.0), as the bits of a 64-bit
        /// floating-point number.
        multiplier: u64,
    },
}

impl BackoffStrategy {
    /// The nanoseconds of a linear delay before the maximum applies: the
    /// initial delay and `attempt` increments, where `attempt` counts
    /// modulo 2^32.
    pub open spec fn linear_nanos(initial: Duration, increment: Duration, attempt: usize) -> nat {
        initial.total_nanos() + increment.total_nanos() * ((attempt as nat) % 0x1_0000_0000)
    }

    /// Whether the delay for `attempt` can be held: a linear delay whose
    /// seconds pass 64 bits before the maximum applies cannot.
    pub open spec fn delay_fits(self, attempt: usize) -> bool {
        match self {
            BackoffStrategy::Linear { initial, increment, max } => {
                &&& increment.total_nanos() * ((attempt as nat) % 0x1_0000_0000) / 1_000_000_000
                    <= u64::MAX
                &&& Self::linear_nanos(initial, increment, attempt) / 1_000_000_000 <= u64::MAX
            },
            _ => true,
        }
    }

    /// The nanoseconds of the delay for a given attempt number (0-indexed).
    /// `grown` is read for an exponential strategy only: the nanoseconds of
    /// the initial delay times the multiplier to the power of `attempt`.
    pub open spec fn delay_nanos(self, attempt: usize, grown: u64) -> nat {
        match self {
            BackoffStrategy::NoDelay => 0,
            BackoffStrategy::Constant(d) => d.total_nanos(),
            BackoffStrategy::Linear { initial, increment, max } => {
                let raw = Self::linear_nanos(initial, increment, attempt);
                if raw <= max.total_nanos() {
                    raw
                } else {
                    max.total_nanos()
                }
            },
            BackoffStrategy::Exponential { initial, max, multiplier } => {
                if grown <= max.total_nanos() {
                    grown as nat
                } else {
                    max.total_nanos()
                }
            },
        }
    }

    /// Whether the delay for `attempt` can be held.
    pub fn delay_is_defined(&self, attempt: usize) -> (defined: bool)
        ensures
            defined == self.delay_fits(attempt),
    {
        match self {
            BackoffStrategy::Linear { initial, increment, max } => {
                let count: u128 = (#[verifier::truncate] (attempt as u32)) as u128;
                assert(count == (attempt as nat) % 0x1_0000_0000) by (bit_vector)
                    requires
                        count == (#[verifier::truncate] (attempt as u32)) as u128,
                ;
                let limit: u128 = 0xFFFF_FFFF_FFFF_FFFF * 1_000_000_000 + 999_999_999;
                let step = increment.as_nanos();
                assert(step * count <= 0xFFFF_FFFF_FFFF_FFFF_FFFF_FFFF_FFFF_FFFF) by (nonlinear_arith)
                    requires
                        step <= 0xFFFF_FFFF_FFFF_FFFF * 1_000_000_000 + 999_999_999,
                        count < 0x1_0000_0000,
                ;
                let added = step * count;
                added <= limit && initial.as_nanos() + added <= limit
            },
            _ => true,
        }
    }

    /// Calculate delay for a given attempt number (0-indexed).
    pub fn delay_for_attempt(&self, attempt: usize, grown: u64) -> (delay: Duration)
        requires
            self.delay_fits(attempt),
        ensures
            delay.total_nanos() == self.delay_nanos(attempt, grown),
    {
        match self {
            BackoffStrategy::NoDelay => Duration::zero(),
            BackoffStrategy::Constant(d) => *d,
            BackoffStrategy::Linear { initial, increment, max } => {
                let count: u128 = (#[verifier::truncate] (attempt as u32)) as u128;
                assert(count == (attempt as nat) % 0x1_0000_0000) by (bit_vector)
                    requires
                        count == (#[verifier::truncate] (attempt as u32)) as u128,
                ;
                let step = increment.as_nanos();
                assert(step * count <= 0xFFFF_FFFF_FFFF_FFFF_FFFF_FFFF_FFFF_FFFF) by (nonlinear_arith)
                    requires
                        step <= 0xFFFF_FFFF_FFFF_FFFF * 1_000_000_000 + 999_999_999,
                        count < 0x1_0000_0000,
                ;
                let raw: u128 = initial.as_nanos() + step * count;
                let delay = Duration::new(
                    (raw / 1_000_000_000) as u64,
                    (raw % 1_000_000_000) as u32,
                );
                delay.min(*max)
            },
            BackoffStrategy::Exponential { initial, max, multiplier } => {
                Duration::from_nanos(grown).min(*max)
            },
        }
    }
}

impl Default for BackoffStrategy {
    fn default() -> (strategy: Self)
        ensures
            strategy matches BackoffStrategy::Exponential { initial, max, multiplier } && {
                &&& initial.total_nanos() == 100_000_000
                &&& max.total_nanos() == 30_000_000_000
                &&& multiplier == DOUBLING
            },
    {
        BackoffStrategy::Exponential {
            initial: Duration::from_millis(100),
            max: Duration::from_secs(30),
            multiplier: DOUBLING,
        }
    }
}

/// Configuration for retry behavior.
#[derive(Debug, Clone, Copy, PartialEq, Eq)]
pub struct RetryConfig {
    /// Maximum number of attempts (including first try).
    pub max_attempts: usize,
    /// Backoff strategy between attempts.
    pub backoff: BackoffStrategy,
    /// Whether to add jitter to delays.
    pub jitter: bool,
}

impl RetryConfig {
    /// Create a new retry configuration with defaults: three attempts,
    /// exponential backoff from 100 ms up to 30 s, with jitter.
    pub fn new() -> (config: Self)
        ensures
            config.max_attempts == 3,
            config.jitter,
            config.backoff matches BackoffStrategy::Exponential { initial, max, multiplier } && {
                &&& initial.total_nanos() == 100_000_000
                &&& max.total_nanos() == 30_000_000_000
                &&& multiplier == DOUBLING
            },
    {
        RetryConfig { max_attempts: 3, backoff: BackoffStrategy::default(), jitter: true }
    }

    /// Set maximum number of attempts; at least one is made.
    pub fn max_attempts(self, n: usize) -> (config: Self)
        ensures
            config == (RetryConfig { max_attempts: if n >= 1 { n } else { 1 }, ..self }),
    {
        let mut config = self;
        config.max_attempts = if n >= 1 {
            n
        } else {
            1
        };
        config
    }

    /// Set backoff strategy.
    pub fn backoff(self, strategy: BackoffStrategy) -> (config: Self)
        ensures
            config == (RetryConfig { backoff: strategy, ..self }),
    {
        let mut config = self;
        config.backoff = strategy;
        config
    }

    /// Enable or disable jitter.
    pub fn jitter(self, enabled: bool) -> (config: Self)
        ensures
            config == (RetryConfig { jitter: enabled, ..self }),
    {
        let mut config = self;
        config.jitter = enabled;
        config
    }

    /// Create config for no retries.
    pub fn no_retry() -> (config: Self)
        ensures
            config == (RetryConfig {
                max_attempts: 1,
                backoff: BackoffStrategy::NoDelay,
                jitter: false,
            }),
    {
        RetryConfig { max_attempts: 1, backoff: BackoffStrategy::NoDelay, jitter: false }
    }

    /// Create config with simple constant delay.
    pub fn with_constant_delay(attempts: usize, delay: Duration) -> (config: Self)
        ensures
            config == (RetryConfig {
                max_attempts: attempts,
                backoff: BackoffStrategy::Constant(delay),
                jitter: false,
            }),
    {
        RetryConfig { max_attempts: attempts, backoff: BackoffStrategy::Constant(delay), jitter: false }
    }

    /// Create config with exponential backoff that doubles, with jitter.
    pub fn with_exponential_backoff(attempts: usize, initial: Duration, max: Duration) -> (config:
        Self)
        ensures
            config == (RetryConfig {
                max_attempts: attempts,
                backoff: BackoffStrategy::Exponential { initial, max, multiplier: DOUBLING },
                jitter: true,
            }),
    {
        RetryConfig {
            max_attempts: attempts,
            backoff: BackoffStrategy::Exponential { initial, max, multiplier: DOUBLING },
            jitter: true,
        }
    }

    /// Whether jitter is to be added to `delay`: where it is switched on and
    /// the delay is not empty.
    pub fn wants_jitter(&self, delay: Duration) -> (wanted: bool)
        ensures
            wanted == (self.jitter && delay.total_nanos() > 0),
    {
        self.jitter && !delay.is_zero()
    }

    /// Whether another attempt follows attempt number `attempt`
    /// (0-indexed). Only then is a delay worked out.
    pub fn attempts_left(&self, attempt: usize) -> (left: bool)
        ensures
            left == (attempt + 1 < self.max_attempts),
    {
        attempt < usize::MAX && attempt + 1 < self.max_attempts
    }

    /// What a retry loop does after attempt number `attempt` (0-indexed)
    /// has failed, where `delay` is the delay for that attempt, jitter
    /// included.
    pub fn after_failure(&self, attempt: usize, delay: Duration) -> (step: RetryStep)
        ensures
            step == next_step(*self, attempt, delay),
    {
        if self.attempts_left(attempt) {
            if delay.is_zero() {
                RetryStep::Retry
            } else {
                RetryStep::Wait(delay)
            }
        } else {
            RetryStep::GiveUp
        }
    }
}

impl Default for RetryConfig {
    fn default() -> (config: Self)
        ensures
            config.max_attempts == 3,
            config.jitter,
            config.backoff matches BackoffStrategy::Exponential { initial, max, multiplier } && {
                &&& initial.total_nanos() == 100_000_000
                &&& max.total_nanos() == 30_000_000_000
                &&& multiplier == DOUBLING
            },
    {
        RetryConfig::new()
    }
}

/// What a retry loop does after a failed attempt.
#[derive(Debug, Clone, Copy, PartialEq, Eq)]
pub enum RetryStep {
    /// That was the last attempt: report the error.
    GiveUp,
    /// Make the next attempt at once.
    Retry,
    /// Sleep for this long, then make the next attempt.
    Wait(Duration),
}

/// The step after attempt number `attempt` has failed: while attempts are
/// left, the next one follows, after `delay` if that is not empty.
pub open spec fn next_step(config: RetryConfig, attempt: usize, delay: Duration) -> RetryStep {
    if attempt + 1 < config.max_attempts {
        if delay.total_nanos() == 0 {
            RetryStep::Retry
        } else {
            RetryStep::Wait(delay)
        }
    } else {
        RetryStep::GiveUp
    }
}

/// Result of a retry operation.
#[derive(Debug)]
pub struct RetryResult<T, E> {
    /// The final result.
    pub result: Result<T, E>,
    /// Number of attempts made.
    pub attempts: usize,
    /// Total time spent (including delays).
    pub total_time: Duration,
}

impl<T, E> RetryResult<T, E> {
    /// Check if the operation succeeded.
    pub fn is_ok(&self) -> (ok: bool)
        ensures
            ok == self.result is Ok,
    {
        self.result.is_ok()
    }

    /// Check if the operation failed.
    pub fn is_err(&self) -> (err: bool)
        ensures
            err == self.result is Err,
    {
        self.result.is_err()
    }

    /// Unwrap the result of an operation that succeeded.
    pub fn unwrap(self) -> (value: T) where E: std::fmt::Debug
        requires
            self.result is Ok,
        ensures
            self.result == Ok::<T, E>(value),
    {
        self.result.unwrap()
    }

    /// Get the result.
    pub fn into_result(self) -> (result: Result<T, E>)
        ensures
            result == self.result,
    {
        self.result
    }
}

} // verus!
