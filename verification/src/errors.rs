//! Error types surfaced by the client and by payload processing.

use vstd::prelude::*;

verus! {

/// Errors returned by the booking API client.
#[derive(Debug, Clone)]
pub enum ApiError {
    /// Transport-level transient failure.
    NetworkError(String),
    /// Local admission rejected; the caller should back off.
    RateLimitExceeded(String),
    /// An attempt exceeded its time budget (milliseconds).
    Timeout(u64),
    /// The downstream service is presumed unhealthy; fail fast.
    CircuitBreakerOpen { service_name: String, retry_after_ms: Option<u64> },
    /// Remote-reported outcome; retryable per its flag.
    ApiResponseError { status_code: u16, message: String, is_retryable: bool },
    /// Displaced by a higher-priority request while still queued.
    RequestPreempted,
    /// A client-side operational error.
    ClientError(String),
    /// A priority queue was at capacity.
    QueueFull,
    /// Anything else.
    Other(String),
}

/// Errors from client construction or configuration.
#[derive(Debug, Clone)]
pub enum ClientError {
    ConfigError(String),
    InitError(String),
}

/// Errors from supplier payload processing.
#[derive(Debug)]
pub enum ProcessingError {
    XmlParseError(String),
    JsonParseError(String),
    MissingRequiredField(String),
    InvalidFormat(String),
    ConversionError(String),
    IoError(String),
    Other(String),
}

} // verus!
