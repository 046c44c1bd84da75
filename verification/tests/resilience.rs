// Scenario tests for the resilience core: rate limiting, circuit breaking,
// priority scheduling with preemption, retry backoff, and client operations.

use booking_client::circuit_breaker::{CircuitBreakerRecord, CircuitBreakerRegistry, CircuitState, GateDecision};
use booking_client::client::BookingApiClient;
use booking_client::config::{CircuitBreakerConfig, ClientConfig, RetryConfig};
use booking_client::errors::ApiError;
use booking_client::rate_limiter::TokenBucket;
use booking_client::retry::{calculate_backoff, is_retryable, next_retry_decision, RetryDecision};
use booking_client::scheduler::PriorityScheduler;
use booking_client::types::RequestPriority;
use booking_client::SystemHealth;

fn test_config() -> ClientConfig {
    ClientConfig {
        base_url: "https://api.example.com".to_string(),
        api_key: "test_key".to_string(),
        max_requests_per_second: 10,
        max_burst_size: 20,
        max_concurrent_requests: 5,
        timeout_ms: 5000,
        retry_config: RetryConfig::default(),
        circuit_breaker_config: CircuitBreakerConfig::default(),
        queue_size_per_priority: 100,
        health_check_interval_ms: 30000,
    }
}

#[test]
fn rate_limit_burst_of_two_rejects_third() {
    // max_requests_per_second=2, max_burst_size=2: three back-to-back checks
    let mut bucket = TokenBucket::new(2, 2, 0);
    assert!(bucket.try_acquire(0));
    assert!(bucket.try_acquire(0));
    assert!(!bucket.try_acquire(0));
}

#[test]
fn rate_limit_client_scenario() {
    let mut config = test_config();
    config.max_requests_per_second = 2;
    config.max_burst_size = 2;
    let mut client = BookingApiClient::new(config, 0).unwrap();
    let r1 = client.try_admit_and_enqueue("a".to_string(), RequestPriority::Medium, false, None, 0);
    let r2 = client.try_admit_and_enqueue("b".to_string(), RequestPriority::Medium, false, None, 0);
    let r3 = client.try_admit_and_enqueue("c".to_string(), RequestPriority::Medium, false, None, 0);
    assert!(r1.is_ok());
    assert!(r2.is_ok());
    assert!(matches!(r3, Err(ApiError::RateLimitExceeded(_))));
    assert_eq!(client.stats().requests_throttled, 1);
}

#[test]
fn token_bucket_refills_over_time() {
    let mut bucket = TokenBucket::new(2, 2, 0);
    assert_eq!(bucket.tokens_whole(), 2);
    assert!(bucket.try_acquire(0));
    assert!(bucket.try_acquire(0));
    assert_eq!(bucket.tokens_whole(), 0);
    assert!(!bucket.try_acquire(0));
    // after 500 ms at 2/s one token has refilled
    assert!(bucket.try_acquire(500));
    assert!(!bucket.try_acquire(500));
}

#[test]
fn degraded_health_returns_600_permille_and_slows_refill() {
    let mut client = BookingApiClient::new(test_config(), 0).unwrap();
    let m = client.set_system_health(SystemHealth::Degraded);
    assert_eq!(m, 600);
    assert_eq!(client.stats().adaptive_rate_limit_multiplier_permille, 600);

    // throughput capped at 0.6 x rate: a drained bucket at 10/s refills only
    // 6 whole tokens over one second under the Degraded multiplier
    let mut bucket = TokenBucket::new(10, 10, 0);
    for _ in 0..10 {
        assert!(bucket.try_acquire(0));
    }
    assert!(!bucket.try_acquire(0));
    bucket.set_multiplier(600);
    let mut admitted = 0;
    for _ in 0..10 {
        if bucket.try_acquire(1000) {
            admitted += 1;
        }
    }
    assert_eq!(admitted, 6);
}

#[test]
fn unhealthy_health_returns_200_permille() {
    let mut client = BookingApiClient::new(test_config(), 0).unwrap();
    assert_eq!(client.set_system_health(SystemHealth::Unhealthy), 200);
    assert_eq!(client.set_system_health(SystemHealth::Healthy), 1000);
}

#[test]
fn breaker_opens_exactly_on_fifth_failure() {
    let cfg = CircuitBreakerConfig::default();
    assert_eq!(cfg.failure_threshold, 5);
    let mut rec = CircuitBreakerRecord::new("supplier".to_string(), 0, &cfg);
    for k in 1..=4 {
        rec.record_failure(&cfg, k);
        assert_eq!(rec.state, CircuitState::Closed, "open too early");
    }
    rec.record_failure(&cfg, 5);
    assert_eq!(rec.state, CircuitState::Open);
    assert_eq!(rec.consecutive_failures, 0);
}

#[test]
fn breaker_success_resets_failure_streak() {
    let cfg = CircuitBreakerConfig::default();
    let mut rec = CircuitBreakerRecord::new("supplier".to_string(), 0, &cfg);
    for k in 1..=4 {
        rec.record_failure(&cfg, k);
    }
    rec.record_success(&cfg, 5);
    assert_eq!(rec.consecutive_failures, 0);
    // four more failures still do not open; the fifth consecutive one does
    for k in 6..=9 {
        rec.record_failure(&cfg, k);
        assert_eq!(rec.state, CircuitState::Closed);
    }
    rec.record_failure(&cfg, 10);
    assert_eq!(rec.state, CircuitState::Open);
}

#[test]
fn sixth_call_fails_fast_without_transport() {
    // failure_threshold=5: five failing calls, then the breaker fails fast
    let mut config = test_config();
    config.max_requests_per_second = 1000;
    config.max_burst_size = 1000;
    let mut client = BookingApiClient::new(config, 0).unwrap();
    let rc = RetryConfig::default();
    for k in 0..5u64 {
        assert!(client.begin_attempt("supplier", k).is_ok());
        client.on_attempt_failure(
            "supplier",
            &ApiError::NetworkError("down".to_string()),
            0,
            &rc,
            None,
            k,
        );
    }
    let r = client.begin_attempt("supplier", 6);
    match r {
        Err(ApiError::CircuitBreakerOpen { service_name, retry_after_ms }) => {
            assert_eq!(service_name, "supplier");
            assert!(retry_after_ms.is_some());
        },
        other => panic!("expected CircuitBreakerOpen, got {:?}", other.is_ok()),
    }
    // the transport was never reached: sent counts only the five real attempts
    assert_eq!(client.stats().requests_sent, 5);
    assert_eq!(client.stats().requests_circuit_broken, 1);
}

#[test]
fn half_open_admits_limited_trials_and_reopens_on_failure() {
    let cfg = CircuitBreakerConfig {
        failure_threshold: 1,
        success_threshold: 2,
        reset_timeout_ms: 100,
        half_open_max_requests: 1,
    };
    let mut rec = CircuitBreakerRecord::new("supplier".to_string(), 0, &cfg);
    rec.record_failure(&cfg, 0);
    assert_eq!(rec.state, CircuitState::Open);
    // before the reset timeout: fast fail with the remaining time
    match rec.check(&cfg, 40) {
        GateDecision::FastFail { retry_after_ms } => assert_eq!(retry_after_ms, Some(60)),
        _ => panic!("expected fast fail while open"),
    }
    // after the timeout: half-open, one trial admitted, a second refused
    assert_eq!(rec.check(&cfg, 100), GateDecision::AllowTrial);
    assert_eq!(rec.state, CircuitState::HalfOpen);
    assert_eq!(rec.check(&cfg, 101), GateDecision::FastFail { retry_after_ms: None });
    // a failure during half-open reopens immediately
    rec.record_failure(&cfg, 102);
    assert_eq!(rec.state, CircuitState::Open);
    assert_eq!(rec.last_transition_ms, 102);
}

#[test]
fn half_open_closes_after_success_threshold() {
    let cfg = CircuitBreakerConfig {
        failure_threshold: 1,
        success_threshold: 2,
        reset_timeout_ms: 100,
        half_open_max_requests: 2,
    };
    let mut rec = CircuitBreakerRecord::new("supplier".to_string(), 0, &cfg);
    rec.record_failure(&cfg, 0);
    assert_eq!(rec.check(&cfg, 100), GateDecision::AllowTrial);
    rec.record_success(&cfg, 110);
    assert_eq!(rec.state, CircuitState::HalfOpen);
    assert_eq!(rec.check(&cfg, 115), GateDecision::AllowTrial);
    rec.record_success(&cfg, 120);
    assert_eq!(rec.state, CircuitState::Closed);
    assert_eq!(rec.consecutive_successes, 0);
}

#[test]
fn reset_circuit_breakers_on_three_open_services() {
    let mut config = test_config();
    config.max_requests_per_second = 1000;
    config.max_burst_size = 1000;
    config.circuit_breaker_config.failure_threshold = 1;
    let mut client = BookingApiClient::new(config, 0).unwrap();
    let rc = RetryConfig::default();
    for name in ["alpha", "beta", "gamma"] {
        assert!(client.begin_attempt(name, 0).is_ok());
        client.on_attempt_failure(name, &ApiError::Timeout(5000), 0, &rc, None, 0);
    }
    assert!(client.stats().circuit_breaker_open);
    let n = client.reset_circuit_breakers(10);
    assert_eq!(n, 3);
    // immediately afterwards all three accept requests again
    for name in ["alpha", "beta", "gamma"] {
        assert!(client.begin_attempt(name, 11).is_ok());
    }
    assert!(!client.stats().circuit_breaker_open);
}

#[test]
fn priority_ordering_critical_before_older_low() {
    // A(Low, t=0) then B(Critical, t=1); B dispatches first
    let mut s = PriorityScheduler::new(10, 2);
    s.enqueue("A".to_string(), RequestPriority::Low, false, None, 0).unwrap();
    s.enqueue("B".to_string(), RequestPriority::Critical, false, None, 1).unwrap();
    let first = s.dispatch_next().unwrap();
    assert_eq!(first.correlation_id, "B");
    let second = s.dispatch_next().unwrap();
    assert_eq!(second.correlation_id, "A");
}

#[test]
fn fifo_within_one_priority() {
    let mut s = PriorityScheduler::new(10, 3);
    s.enqueue("one".to_string(), RequestPriority::Medium, false, None, 0).unwrap();
    s.enqueue("two".to_string(), RequestPriority::Medium, false, None, 1).unwrap();
    assert_eq!(s.dispatch_next().unwrap().correlation_id, "one");
    assert_eq!(s.dispatch_next().unwrap().correlation_id, "two");
}

#[test]
fn bookings_scheduled_at_least_high() {
    let mut s = PriorityScheduler::new(10, 2);
    s.enqueue("search".to_string(), RequestPriority::Medium, false, None, 0).unwrap();
    s.enqueue("booking".to_string(), RequestPriority::Low, true, None, 1).unwrap();
    // the booking, raised to High, outranks the older Medium search
    assert_eq!(s.dispatch_next().unwrap().correlation_id, "booking");
}

#[test]
fn preemption_displaces_queued_low_not_executing_low() {
    // max_concurrent_requests=1; one Low executing, one Low queued, then a
    // Critical arrives: the queued Low is preempted, the executing one is not
    let mut s = PriorityScheduler::new(10, 1);
    s.enqueue("running_low".to_string(), RequestPriority::Low, false, None, 0).unwrap();
    let running = s.dispatch_next().unwrap();
    assert_eq!(running.correlation_id, "running_low");
    let none_preempted = s.enqueue("queued_low".to_string(), RequestPriority::Low, false, None, 1)
        .unwrap();
    assert!(none_preempted.is_none());
    let preempted = s.enqueue("critical".to_string(), RequestPriority::Critical, false, None, 2)
        .unwrap();
    assert_eq!(preempted, Some("queued_low".to_string()));
    // the executing request was untouched; the critical one dispatches next
    s.complete_one();
    assert_eq!(s.dispatch_next().unwrap().correlation_id, "critical");
}

#[test]
fn no_preemption_when_slots_free() {
    let mut s = PriorityScheduler::new(10, 2);
    s.enqueue("low".to_string(), RequestPriority::Low, false, None, 0).unwrap();
    let r = s.enqueue("crit".to_string(), RequestPriority::Critical, false, None, 1).unwrap();
    assert!(r.is_none());
}

#[test]
fn queue_full_rejected() {
    let mut s = PriorityScheduler::new(1, 1);
    s.enqueue("a".to_string(), RequestPriority::Low, false, None, 0).unwrap();
    let r = s.enqueue("b".to_string(), RequestPriority::Low, false, None, 1);
    assert!(matches!(r, Err(ApiError::QueueFull)));
}

#[test]
fn cancel_queued_true_dispatched_false() {
    let mut s = PriorityScheduler::new(10, 1);
    s.enqueue("will_run".to_string(), RequestPriority::High, false, None, 0).unwrap();
    s.enqueue("will_cancel".to_string(), RequestPriority::Low, false, None, 1).unwrap();
    let dispatched = s.dispatch_next().unwrap();
    assert_eq!(dispatched.correlation_id, "will_run");
    // already dispatched: cancellation refuses
    assert!(!s.cancel("will_run"));
    // still queued: cancellation removes it, and it never dispatches
    assert!(s.cancel("will_cancel"));
    assert!(!s.cancel("will_cancel"));
    s.complete_one();
    assert!(s.dispatch_next().is_none());
}

#[test]
fn deadline_expiry_removes_queued_entries() {
    let mut s = PriorityScheduler::new(10, 1);
    s.enqueue("deadline".to_string(), RequestPriority::Medium, false, Some(100), 0).unwrap();
    s.enqueue("forever".to_string(), RequestPriority::Medium, false, None, 1).unwrap();
    let timed_out = s.remove_expired(101);
    assert_eq!(timed_out.len(), 1);
    assert_eq!(timed_out[0], "deadline");
    assert_eq!(s.dispatch_next().unwrap().correlation_id, "forever");
}

#[test]
fn backoff_lies_within_jitter_window() {
    let cfg = RetryConfig::default();
    // base for attempt n is min(100 x 2^n, 10000); jitter 0.1
    for attempt in 0..6u32 {
        let base = std::cmp::min(100u64 * (1 << attempt), 10_000);
        let lo = base * (2000 - 100) / 2000;
        let hi = lo + base * 100 / 1000;
        for _ in 0..20 {
            let d = calculate_backoff(attempt, &cfg);
            assert!(d >= lo && d <= hi, "attempt {}: {} not in [{}, {}]", attempt, d, lo, hi);
        }
    }
}

#[test]
fn retry_classification() {
    assert!(is_retryable(&ApiError::NetworkError("x".to_string())));
    assert!(is_retryable(&ApiError::Timeout(10)));
    assert!(is_retryable(&ApiError::ApiResponseError {
        status_code: 503,
        message: "unavailable".to_string(),
        is_retryable: true,
    }));
    assert!(!is_retryable(&ApiError::ApiResponseError {
        status_code: 400,
        message: "bad request".to_string(),
        is_retryable: false,
    }));
    assert!(!is_retryable(&ApiError::RateLimitExceeded("x".to_string())));
    assert!(!is_retryable(&ApiError::CircuitBreakerOpen {
        service_name: "s".to_string(),
        retry_after_ms: None,
    }));
    assert!(!is_retryable(&ApiError::RequestPreempted));
    assert!(!is_retryable(&ApiError::QueueFull));
    assert!(!is_retryable(&ApiError::ClientError("x".to_string())));
    assert!(!is_retryable(&ApiError::Other("x".to_string())));
}

#[test]
fn retries_stop_after_max() {
    let cfg = RetryConfig::default();
    let e = ApiError::NetworkError("x".to_string());
    assert!(matches!(next_retry_decision(&e, 0, &cfg), RetryDecision::RetryAfter(_)));
    assert!(matches!(next_retry_decision(&e, 2, &cfg), RetryDecision::RetryAfter(_)));
    assert!(matches!(next_retry_decision(&e, 3, &cfg), RetryDecision::GiveUp));
    let fatal = ApiError::RequestPreempted;
    assert!(matches!(next_retry_decision(&fatal, 0, &cfg), RetryDecision::GiveUp));
}

#[test]
fn deadline_beats_pending_retry() {
    let mut client = BookingApiClient::new(test_config(), 0).unwrap();
    let rc = RetryConfig::default();
    // a retryable failure, but the request deadline has passed: give up
    let d = client.on_attempt_failure(
        "supplier",
        &ApiError::NetworkError("x".to_string()),
        0,
        &rc,
        Some(50),
        51,
    );
    assert_eq!(d, RetryDecision::GiveUpExpired);
    assert_eq!(client.stats().requests_timeout, 1);
    // with time to spare the same failure is retried
    let d2 = client.on_attempt_failure(
        "supplier",
        &ApiError::NetworkError("x".to_string()),
        0,
        &rc,
        Some(10_000),
        60,
    );
    assert!(matches!(d2, RetryDecision::RetryAfter(_)));
    assert_eq!(client.stats().requests_retried, 1);
}

#[test]
fn backoff_that_would_outlive_the_deadline_gives_up() {
    let mut client = BookingApiClient::new(test_config(), 0).unwrap();
    let rc = RetryConfig::default();
    // retryable with retries left, but even the smallest possible delay
    // (95 ms at attempt 0) ends past the deadline: the deadline wins
    let d = client.on_attempt_failure(
        "supplier",
        &ApiError::NetworkError("x".to_string()),
        0,
        &rc,
        Some(50),
        10,
    );
    assert_eq!(d, RetryDecision::GiveUpExpired);
    assert_eq!(client.stats().requests_timeout, 1);
    assert_eq!(client.stats().requests_retried, 0);
}

#[test]
fn in_flight_requests_keep_their_retry_configuration() {
    let mut client = BookingApiClient::new(test_config(), 0).unwrap();
    // the snapshot a request was admitted under, captured by its driver
    let admitted_rc = client.config.retry_config;
    // the configuration is swapped: no more retries for new requests
    let mut new_config = test_config();
    new_config.retry_config.max_retries = 0;
    assert!(client.update_config(new_config).is_ok());
    // the in-flight request still retries under its original snapshot
    let d = client.on_attempt_failure(
        "supplier",
        &ApiError::NetworkError("x".to_string()),
        0,
        &admitted_rc,
        None,
        0,
    );
    assert!(matches!(d, RetryDecision::RetryAfter(_)));
}

#[test]
fn update_config_leaves_queued_work_untouched() {
    let mut config = test_config();
    config.max_requests_per_second = 1000;
    config.max_burst_size = 1000;
    let mut client = BookingApiClient::new(config, 0).unwrap();
    client.try_admit_and_enqueue("waiting".to_string(), RequestPriority::Medium, false, None, 0)
        .unwrap();
    let mut new_config = test_config();
    new_config.queue_size_per_priority = 7;
    assert!(client.update_config(new_config).is_ok());
    // the queued request survives the swap and still dispatches
    assert_eq!(client.dispatch_next().unwrap().correlation_id, "waiting");
}

#[test]
fn pause_rejects_resume_restores() {
    let mut client = BookingApiClient::new(test_config(), 0).unwrap();
    client.pause(false).unwrap();
    let r = client.try_admit_and_enqueue("x".to_string(), RequestPriority::Medium, false, None, 0);
    assert!(matches!(r, Err(ApiError::ClientError(_))));
    client.resume().unwrap();
    let r2 = client.try_admit_and_enqueue("x".to_string(), RequestPriority::Medium, false, None, 0);
    assert!(r2.is_ok());
}

#[test]
fn update_config_rejects_invalid_and_swaps_valid() {
    let mut client = BookingApiClient::new(test_config(), 0).unwrap();
    let mut bad = test_config();
    bad.max_requests_per_second = 0;
    assert!(client.update_config(bad).is_err());
    let mut good = test_config();
    good.max_requests_per_second = 50;
    good.max_burst_size = 7;
    assert!(client.update_config(good).is_ok());
    assert_eq!(client.stats().current_rate_limit, 50);
}

#[test]
fn new_client_rejects_zero_limits() {
    let mut config = test_config();
    config.max_burst_size = 0;
    assert!(BookingApiClient::new(config, 0).is_err());
}

#[test]
fn preemption_resolves_with_preempted_and_counts() {
    let mut config = test_config();
    config.max_concurrent_requests = 1;
    config.max_requests_per_second = 1000;
    config.max_burst_size = 1000;
    let mut client = BookingApiClient::new(config, 0).unwrap();
    client.try_admit_and_enqueue("r1".to_string(), RequestPriority::Low, false, None, 0).unwrap();
    assert!(client.dispatch_next().is_some());
    client.try_admit_and_enqueue("r2".to_string(), RequestPriority::Low, false, None, 1).unwrap();
    let preempted = client
        .try_admit_and_enqueue("r3".to_string(), RequestPriority::Critical, false, None, 2)
        .unwrap();
    assert_eq!(preempted, Some("r2".to_string()));
    assert_eq!(client.stats().requests_preempted, 1);
}

#[test]
fn stats_track_success_latency() {
    let mut client = BookingApiClient::new(test_config(), 0).unwrap();
    assert!(client.begin_attempt("supplier", 0).is_ok());
    client.on_attempt_success("supplier", 120, 120);
    assert!(client.begin_attempt("supplier", 200).is_ok());
    client.on_attempt_success("supplier", 80, 280);
    let stats = client.stats();
    assert_eq!(stats.requests_sent, 2);
    assert_eq!(stats.requests_succeeded, 2);
    assert_eq!(stats.average_response_time_ms, 100);
    assert_eq!(stats.max_response_time_ms, 120);
    assert_eq!(stats.p99_response_time_ms, 120);
}

#[test]
fn registry_tracks_services_independently() {
    let cfg = CircuitBreakerConfig {
        failure_threshold: 1,
        success_threshold: 1,
        reset_timeout_ms: 1000,
        half_open_max_requests: 1,
    };
    let mut reg = CircuitBreakerRegistry::new();
    let a = reg.ensure_record("a", 0, &cfg);
    reg.failure_at(a, &cfg, 0);
    let b = reg.ensure_record("b", 0, &cfg);
    assert_eq!(reg.records[a].state, CircuitState::Open);
    assert_eq!(reg.records[b].state, CircuitState::Closed);
}
