//! Failure classification and bounded, jittered exponential backoff.

use vstd::prelude::*;
use crate::config::RetryConfig;
use crate::errors::ApiError;

verus! {

/// Which failures may be retried: transport-level transient failures,
/// attempt timeouts, and remote outcomes flagged retryable. Local decisions
/// (rate limit, circuit breaker, preemption, queue capacity) are final.
pub open spec fn spec_is_retryable(e: ApiError) -> bool {
    match e {
        ApiError::NetworkError(_) => true,
        ApiError::Timeout(_) => true,
        ApiError::ApiResponseError { status_code, message, is_retryable } => is_retryable,
        _ => false,
    }
}

pub fn is_retryable(e: &ApiError) -> (r: bool)
    ensures
        r == spec_is_retryable(*e),
{
    match e {
        ApiError::NetworkError(_) => true,
        ApiError::Timeout(_) => true,
        ApiError::ApiResponseError { status_code: _, message: _, is_retryable } => *is_retryable,
        _ => false,
    }
}

/// Backoff base before jitter for the attempt with the given zero-based
/// index: the initial backoff grown by the multiplier once per attempt,
/// capped at `max_backoff_ms` (growth in thousandths, rounded down).
pub open spec fn spec_backoff_base(cfg: RetryConfig, attempt: nat) -> int
    decreases attempt,
{
    if attempt == 0 {
        cfg.initial_backoff_ms as int
    } else {
        let grown = spec_backoff_base(cfg, (attempt - 1) as nat) * cfg.backoff_multiplier_permille
            / 1000;
        if grown >= cfg.max_backoff_ms {
            cfg.max_backoff_ms as int
        } else {
            grown
        }
    }
}

pub proof fn lemma_backoff_base_bounds(cfg: RetryConfig, attempt: nat)
    requires
        cfg.wf(),
    ensures
        0 <= spec_backoff_base(cfg, attempt) <= cfg.max_backoff_ms,
    decreases attempt,
{
    if attempt > 0 {
        lemma_backoff_base_bounds(cfg, (attempt - 1) as nat);
        let prev = spec_backoff_base(cfg, (attempt - 1) as nat);
        assert(prev * cfg.backoff_multiplier_permille >= 0) by (nonlinear_arith)
            requires
                prev >= 0,
                cfg.backoff_multiplier_permille >= 0,
        ;
    }
}

/// Computes the backoff base for an attempt.
pub fn backoff_base(cfg: &RetryConfig, attempt: u32) -> (r: u64)
    requires
        cfg.wf(),
    ensures
        r == spec_backoff_base(*cfg, attempt as nat),
        r <= cfg.max_backoff_ms,
{
    proof {
        lemma_backoff_base_bounds(*cfg, attempt as nat);
    }
    let mut b: u64 = cfg.initial_backoff_ms;
    let mut k: u32 = 0;
    while k < attempt
        invariant
            cfg.wf(),
            0 <= k <= attempt,
            b == spec_backoff_base(*cfg, k as nat),
            b <= cfg.max_backoff_ms,
        decreases attempt - k,
    {
        proof {
            lemma_backoff_base_bounds(*cfg, k as nat);
        }
        assert(b * cfg.backoff_multiplier_permille <= 86_400_000u64 * 100_000) by (nonlinear_arith)
            requires
                b <= 86_400_000u64,
                cfg.backoff_multiplier_permille <= 100_000,
        ;
        let grown: u64 = b * cfg.backoff_multiplier_permille / 1000;
        b = if grown >= cfg.max_backoff_ms {
            cfg.max_backoff_ms
        } else {
            grown
        };
        k = k + 1;
    }
    b
}

/// The delay for one retry: the base shrunk by half the jitter fraction,
/// plus a drawn jitter share. `jitter` and `draw` are in thousandths, with
/// `draw <= jitter`.
pub open spec fn spec_delay(base: int, jitter: int, draw: int) -> int {
    base * (2000 - jitter) / 2000 + base * draw / 1000
}

/// The jittered delay stays within the backoff window: at least
/// `base x (1 - jitter/2)` and at most `base x (1 - jitter/2) + base x jitter`,
/// whatever the draw.
pub proof fn lemma_delay_bounds(base: int, jitter: int, draw: int)
    requires
        0 <= base,
        0 <= jitter <= 1000,
        0 <= draw <= jitter,
    ensures
        spec_delay(base, jitter, draw) >= base * (2000 - jitter) / 2000,
        spec_delay(base, jitter, draw) <= base * (2000 - jitter) / 2000 + base * jitter / 1000,
{
    assert(base * draw >= 0) by (nonlinear_arith)
        requires
            base >= 0,
            draw >= 0,
    ;
    assert(base * draw <= base * jitter) by (nonlinear_arith)
        requires
            base >= 0,
            draw <= jitter,
    ;
    assert(base * draw / 1000 >= 0);
    vstd::arithmetic::div_mod::lemma_div_is_ordered(base * draw, base * jitter, 1000);
}

/// Computes the delay for given base, jitter, and draw.
pub fn compute_delay(base: u64, jitter: u64, draw: u64) -> (r: u64)
    requires
        base <= 86_400_000,
        jitter <= 1000,
        draw <= jitter,
    ensures
        r == spec_delay(base as int, jitter as int, draw as int),
{
    assert(base * (2000 - jitter) <= 86_400_000u64 * 2000) by (nonlinear_arith)
        requires
            base <= 86_400_000u64,
            jitter <= 1000,
    ;
    assert(base * draw <= 86_400_000u64 * 1000) by (nonlinear_arith)
        requires
            base <= 86_400_000u64,
            draw <= 1000,
    ;
    base * (2000 - jitter) / 2000 + base * draw / 1000
}

/// Relies on rand::random::<u64>: a machine word drawn from the thread-local
/// generator; nothing is promised of its value.
#[verifier::external_body]
fn random_u64() -> u64 {
    rand::random::<u64>()
}

/// Computes the jittered backoff delay for a retry attempt (zero-based).
///
/// The result always lies within the backoff window of the attempt's base
/// `b = min(initial x multiplier^attempt, max_backoff)`:
/// `b x (1 - jitter/2) <= delay <= b x (1 - jitter/2) + b x jitter`
/// (in thousandths, rounded down).
pub fn calculate_backoff(retry_attempt: u32, config: &RetryConfig) -> (r: u64)
    requires
        config.wf(),
    ensures
        ({
            let base = spec_backoff_base(*config, retry_attempt as nat);
            let jitter = config.jitter_factor_permille as int;
            &&& exists|draw: int| 0 <= draw <= jitter && r == spec_delay(base, jitter, draw)
            &&& base * (2000 - jitter) / 2000 <= r
            &&& r <= base * (2000 - jitter) / 2000 + base * jitter / 1000
        }),
{
    let base = backoff_base(config, retry_attempt);
    let jitter = config.jitter_factor_permille;
    let draw: u64 = random_u64() % (jitter + 1);
    proof {
        lemma_backoff_base_bounds(*config, retry_attempt as nat);
        lemma_delay_bounds(base as int, jitter as int, draw as int);
    }
    compute_delay(base, jitter, draw)
}

/// What to do after a failed attempt.
#[derive(Debug, Clone, Copy, PartialEq, Eq, Structural)]
pub enum RetryDecision {
    /// Wait this many milliseconds, re-admit, and try again.
    RetryAfter(u64),
    /// Surface the failure to the caller.
    GiveUp,
    /// The request's deadline decided: resolve the caller with a timeout.
    GiveUpExpired,
}

/// Decides whether the failed attempt with the given zero-based index is
/// retried: only retryable failures, and only while fewer than `max_retries`
/// retries have been used. The delay obeys the backoff window of the attempt.
pub fn next_retry_decision(e: &ApiError, attempt: u32, config: &RetryConfig) -> (r: RetryDecision)
    requires
        config.wf(),
    ensures
        r == RetryDecision::GiveUp <==> (!spec_is_retryable(*e) || attempt
            >= config.max_retries),
        // this policy knows nothing of deadlines
        !(r is GiveUpExpired),
        r matches RetryDecision::RetryAfter(d) ==> {
            let base = spec_backoff_base(*config, attempt as nat);
            let jitter = config.jitter_factor_permille as int;
            base * (2000 - jitter) / 2000 <= d <= base * (2000 - jitter) / 2000 + base * jitter
                / 1000
        },
{
    if !is_retryable(e) {
        return RetryDecision::GiveUp;
    }
    if attempt >= config.max_retries {
        return RetryDecision::GiveUp;
    }
    RetryDecision::RetryAfter(calculate_backoff(attempt, config))
}

} // verus!
