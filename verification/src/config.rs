//! Client configuration. Fractional knobs (backoff multiplier, jitter) are
//! held in thousandths so that every computation stays in exact integers.

use vstd::prelude::*;

verus! {

/// Retry behaviour: bounded exponential backoff with jitter.
///
/// `backoff_multiplier_permille` is the per-attempt growth factor in
/// thousandths (2000 means x2.0); `jitter_factor_permille` is the jitter
/// fraction in thousandths (100 means 0.1).
#[derive(Debug, Clone, Copy)]
pub struct RetryConfig {
    pub max_retries: u32,
    pub initial_backoff_ms: u64,
    pub max_backoff_ms: u64,
    pub backoff_multiplier_permille: u64,
    pub jitter_factor_permille: u64,
}

impl RetryConfig {
    /// Bounds under which every backoff computation fits in a `u64`.
    pub open spec fn wf(self) -> bool {
        &&& self.initial_backoff_ms <= self.max_backoff_ms
        &&& self.max_backoff_ms <= 86_400_000
        &&& 1000 <= self.backoff_multiplier_permille <= 100_000
        &&& self.jitter_factor_permille <= 1000
    }
}

impl Default for RetryConfig {
    /// Three retries, 100 ms initial backoff doubling up to 10 s, 0.1 jitter.
    fn default() -> (r: RetryConfig)
        ensures
            r.max_retries == 3,
            r.initial_backoff_ms == 100,
            r.max_backoff_ms == 10_000,
            r.backoff_multiplier_permille == 2000,
            r.jitter_factor_permille == 100,
            r.wf(),
    {
        RetryConfig {
            max_retries: 3,
            initial_backoff_ms: 100,
            max_backoff_ms: 10_000,
            backoff_multiplier_permille: 2000,
            jitter_factor_permille: 100,
        }
    }
}

/// Circuit-breaker thresholds and timing.
#[derive(Debug, Clone, Copy)]
pub struct CircuitBreakerConfig {
    pub failure_threshold: u32,
    pub success_threshold: u32,
    pub reset_timeout_ms: u64,
    pub half_open_max_requests: u32,
}

impl CircuitBreakerConfig {
    pub open spec fn wf(self) -> bool {
        &&& self.failure_threshold >= 1
        &&& self.success_threshold >= 1
        &&& self.half_open_max_requests >= 1
    }
}

impl Default for CircuitBreakerConfig {
    /// Open after 5 consecutive failures, close after 3 trial successes,
    /// try again 30 s after opening, one trial at a time.
    fn default() -> (r: CircuitBreakerConfig)
        ensures
            r.failure_threshold == 5,
            r.success_threshold == 3,
            r.reset_timeout_ms == 30_000,
            r.half_open_max_requests == 1,
            r.wf(),
    {
        CircuitBreakerConfig {
            failure_threshold: 5,
            success_threshold: 3,
            reset_timeout_ms: 30_000,
            half_open_max_requests: 1,
        }
    }
}

/// Full client configuration.
#[derive(Debug, Clone)]
pub struct ClientConfig {
    pub base_url: String,
    pub api_key: String,
    pub max_requests_per_second: u32,
    pub max_burst_size: u32,
    pub max_concurrent_requests: u32,
    pub timeout_ms: u64,
    pub retry_config: RetryConfig,
    pub circuit_breaker_config: CircuitBreakerConfig,
    pub queue_size_per_priority: usize,
    pub health_check_interval_ms: u64,
}

impl ClientConfig {
    /// A configuration the client accepts: positive limits, and bounds under
    /// which token arithmetic stays exact in 64 bits.
    pub open spec fn wf(self) -> bool {
        &&& 1 <= self.max_requests_per_second <= 1_000_000
        &&& 1 <= self.max_burst_size <= 1_000_000
        &&& self.max_concurrent_requests >= 1
        &&& 1 <= self.queue_size_per_priority <= 1_000_000_000
        &&& self.retry_config.wf()
        &&& self.circuit_breaker_config.wf()
    }

    /// Checks the same bounds at run time.
    pub fn is_valid(&self) -> (r: bool)
        ensures
            r == self.wf(),
    {
        1 <= self.max_requests_per_second && self.max_requests_per_second <= 1_000_000
            && 1 <= self.max_burst_size && self.max_burst_size <= 1_000_000
            && self.max_concurrent_requests >= 1
            && 1 <= self.queue_size_per_priority && self.queue_size_per_priority <= 1_000_000_000
            && self.retry_config.initial_backoff_ms <= self.retry_config.max_backoff_ms
            && self.retry_config.max_backoff_ms <= 86_400_000
            && 1000 <= self.retry_config.backoff_multiplier_permille
            && self.retry_config.backoff_multiplier_permille <= 100_000
            && self.retry_config.jitter_factor_permille <= 1000
            && self.circuit_breaker_config.failure_threshold >= 1
            && self.circuit_breaker_config.success_threshold >= 1
            && self.circuit_breaker_config.half_open_max_requests >= 1
    }
}

} // verus!
