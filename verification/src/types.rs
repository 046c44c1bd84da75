//! Request, response, and statistics types.
//!
//! Monetary amounts are carried in thousandths of a currency unit and
//! response-time averages in whole milliseconds, so that all contract
//! arithmetic is exact.

use vstd::prelude::*;

verus! {

/// Scheduling priority; `Low` ranks below `Medium`, `High`, `Critical`.
#[derive(Debug, Clone, Copy, PartialEq, Eq, Structural)]
pub enum RequestPriority {
    Low,
    Medium,
    High,
    Critical,
}

impl RequestPriority {
    /// Numeric rank used for ordering: Low 0, Medium 1, High 2, Critical 3.
    pub open spec fn spec_rank(self) -> u8 {
        match self {
            RequestPriority::Low => 0,
            RequestPriority::Medium => 1,
            RequestPriority::High => 2,
            RequestPriority::Critical => 3,
        }
    }

    pub fn rank(self) -> (r: u8)
        ensures
            r == self.spec_rank(),
    {
        match self {
            RequestPriority::Low => 0,
            RequestPriority::Medium => 1,
            RequestPriority::High => 2,
            RequestPriority::Critical => 3,
        }
    }
}

impl Default for RequestPriority {
    fn default() -> (r: RequestPriority)
        ensures
            r == RequestPriority::Medium,
    {
        RequestPriority::Medium
    }
}

/// Caller-supplied context: correlation id and an optional absolute deadline
/// (milliseconds on the caller's clock).
#[derive(Debug, Clone)]
pub struct RequestContext {
    pub user_id: Option<String>,
    pub session_id: Option<String>,
    pub correlation_id: String,
    pub client_info: Option<ClientInfo>,
    pub request_deadline_ms: Option<u64>,
}

#[derive(Debug, Clone)]
pub struct ClientInfo {
    pub ip: String,
    pub user_agent: String,
    pub country: Option<String>,
}

/// An availability search over one or more hotels.
#[derive(Debug, Clone)]
pub struct SearchRequest {
    pub hotel_ids: Vec<String>,
    pub check_in: String,
    pub check_out: String,
    pub guests: u32,
    pub priority: RequestPriority,
    pub idempotency_key: Option<String>,
    pub context: RequestContext,
}

#[derive(Debug, Clone)]
pub struct SearchResponse {
    pub search_id: String,
    pub results: Vec<SearchResult>,
    pub rate_limit_remaining: Option<u32>,
    pub processing_time_ms: u64,
}

/// One hotel's availability; the price is in thousandths of a currency unit.
#[derive(Debug, Clone)]
pub struct SearchResult {
    pub hotel_id: String,
    pub available: bool,
    pub price_milli: Option<u64>,
    pub currency: Option<String>,
}

/// A booking; the idempotency key is mandatory.
#[derive(Debug, Clone)]
pub struct BookingRequest {
    pub search_id: String,
    pub hotel_id: String,
    pub guest_name: String,
    pub payment_info: PaymentInfo,
    pub priority: RequestPriority,
    pub idempotency_key: String,
    pub context: RequestContext,
}

#[derive(Debug, Clone)]
pub struct PaymentInfo {
    pub card_type: String,
    pub last_four: String,
    pub expiry: String,
    pub token: Option<String>,
}

#[derive(Debug, Clone)]
pub struct BookingResponse {
    pub booking_id: String,
    pub status: String,
    pub confirmation_code: Option<String>,
    pub rate_limit_remaining: Option<u32>,
    pub processing_time_ms: u64,
}

/// A point-in-time statistics snapshot. Counters only ever grow; response
/// times are in whole milliseconds; the rate multiplier is in thousandths.
#[derive(Debug, Clone)]
pub struct ClientStats {
    pub requests_sent: u64,
    pub requests_succeeded: u64,
    pub requests_failed: u64,
    pub requests_throttled: u64,
    pub requests_retried: u64,
    pub requests_preempted: u64,
    pub requests_timeout: u64,
    pub requests_circuit_broken: u64,
    pub average_response_time_ms: u64,
    pub p95_response_time_ms: u64,
    pub p99_response_time_ms: u64,
    pub max_response_time_ms: u64,
    pub active_requests: u64,
    pub queue_depth: u64,
    pub circuit_breaker_open: bool,
    pub current_rate_limit: u32,
    pub adaptive_rate_limit_multiplier_permille: u64,
}

impl Default for ClientStats {
    fn default() -> (r: ClientStats)
        ensures
            r.requests_sent == 0,
            r.requests_succeeded == 0,
            r.requests_failed == 0,
            r.requests_throttled == 0,
            r.requests_retried == 0,
            r.requests_preempted == 0,
            r.requests_timeout == 0,
            r.requests_circuit_broken == 0,
            r.average_response_time_ms == 0,
            r.p95_response_time_ms == 0,
            r.p99_response_time_ms == 0,
            r.max_response_time_ms == 0,
            r.active_requests == 0,
            r.queue_depth == 0,
            r.circuit_breaker_open == false,
            r.current_rate_limit == 0,
            r.adaptive_rate_limit_multiplier_permille == 1000,
    {
        ClientStats {
            requests_sent: 0,
            requests_succeeded: 0,
            requests_failed: 0,
            requests_throttled: 0,
            requests_retried: 0,
            requests_preempted: 0,
            requests_timeout: 0,
            requests_circuit_broken: 0,
            average_response_time_ms: 0,
            p95_response_time_ms: 0,
            p99_response_time_ms: 0,
            max_response_time_ms: 0,
            active_requests: 0,
            queue_depth: 0,
            circuit_breaker_open: false,
            current_rate_limit: 0,
            adaptive_rate_limit_multiplier_permille: 1000,
        }
    }
}

} // verus!
