//! A resilient booking-supplier client library: token-bucket rate limiting,
//! priority scheduling with preemption, circuit breaking, retry with jittered
//! backoff, statistics, an availability cache, and supplier payload mapping.

pub mod cache;
pub mod circuit_breaker;
pub mod client;
pub mod config;
pub mod errors;
pub mod rate_limiter;
pub mod retry;
pub mod scheduler;
pub mod stats;
pub mod strutil;
pub mod types;
pub mod xml;

use vstd::prelude::*;

verus! {

/// Health of the overall system, as observed by operators; drives the
/// adaptive rate-limit multiplier.
#[derive(Debug, Clone, Copy, PartialEq, Eq, Structural)]
pub enum SystemHealth {
    Healthy,
    Degraded,
    Unhealthy,
}

impl SystemHealth {
    /// The rate multiplier for this health level, in thousandths:
    /// Healthy is 1000 (x1.0), Degraded 600 (x0.6), Unhealthy 200 (x0.2).
    pub open spec fn spec_multiplier_permille(self) -> u64 {
        match self {
            SystemHealth::Healthy => 1000,
            SystemHealth::Degraded => 600,
            SystemHealth::Unhealthy => 200,
        }
    }

    /// Returns the adaptive rate multiplier in thousandths.
    pub fn multiplier_permille(self) -> (r: u64)
        ensures
            r == self.spec_multiplier_permille(),
            200 <= r <= 1000,
    {
        match self {
            SystemHealth::Healthy => 1000,
            SystemHealth::Degraded => 600,
            SystemHealth::Unhealthy => 200,
        }
    }
}

} // verus!
