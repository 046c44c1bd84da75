//! Token-bucket admission control with an adaptive rate multiplier.
//!
//! Tokens are held in millionths ("micro-tokens") so that refill arithmetic
//! is exact: one millisecond of refill at rate `r` requests per second and
//! multiplier `m` thousandths adds exactly `r * m` micro-tokens.

use vstd::prelude::*;

verus! {

/// Micro-tokens per whole token.
pub const TOKEN_MICRO: u64 = 1_000_000;

/// Tokens available after refilling over `elapsed_ms`, capped at `cap`.
pub open spec fn spec_refill(tokens: int, elapsed_ms: int, rate: int, mult: int, cap: int) -> int {
    if tokens + elapsed_ms * rate * mult >= cap {
        cap
    } else {
        tokens + elapsed_ms * rate * mult
    }
}

/// Elapsed time used by the bucket: a clock that appears to run backwards
/// contributes nothing.
pub open spec fn spec_elapsed(last: int, now: int) -> int {
    if now >= last {
        now - last
    } else {
        0
    }
}

/// A token bucket: admission consumes one token if available; tokens refill
/// continuously at `rate_per_second x multiplier`, capped at `burst`.
pub struct TokenBucket {
    pub rate_per_second: u32,
    pub burst: u32,
    pub multiplier_permille: u64,
    pub tokens_micro: u64,
    pub last_refill_ms: u64,
}

impl TokenBucket {
    /// The bucket's capacity in micro-tokens.
    pub open spec fn spec_cap_micro(self) -> int {
        self.burst * 1_000_000
    }

    pub open spec fn wf(self) -> bool {
        &&& 1 <= self.rate_per_second <= 1_000_000
        &&& 1 <= self.burst <= 1_000_000
        &&& 200 <= self.multiplier_permille <= 1000
        &&& self.tokens_micro <= self.spec_cap_micro()
    }

    /// A new bucket starts full.
    pub fn new(rate_per_second: u32, burst: u32, now_ms: u64) -> (r: TokenBucket)
        requires
            1 <= rate_per_second <= 1_000_000,
            1 <= burst <= 1_000_000,
        ensures
            r.wf(),
            r.rate_per_second == rate_per_second,
            r.burst == burst,
            r.multiplier_permille == 1000,
            r.tokens_micro == r.spec_cap_micro(),
            r.last_refill_ms == now_ms,
    {
        TokenBucket {
            rate_per_second,
            burst,
            multiplier_permille: 1000,
            tokens_micro: burst as u64 * TOKEN_MICRO,
            last_refill_ms: now_ms,
        }
    }

    /// Sets the adaptive multiplier; it applies to all later refills at once.
    pub fn set_multiplier(&mut self, permille: u64)
        requires
            old(self).wf(),
            200 <= permille <= 1000,
        ensures
            final(self).wf(),
            *final(self) == (TokenBucket { multiplier_permille: permille, ..*old(self) }),
    {
        self.multiplier_permille = permille;
    }

    /// Admits one request if a whole token is available after refilling.
    ///
    /// Returns true exactly when the refilled level reaches one token; on
    /// admission one token is consumed.
    pub fn try_acquire(&mut self, now_ms: u64) -> (admitted: bool)
        requires
            old(self).wf(),
        ensures
            final(self).wf(),
            ({
                let refilled = spec_refill(
                    old(self).tokens_micro as int,
                    spec_elapsed(old(self).last_refill_ms as int, now_ms as int),
                    old(self).rate_per_second as int,
                    old(self).multiplier_permille as int,
                    old(self).spec_cap_micro(),
                );
                &&& admitted == (refilled >= TOKEN_MICRO)
                &&& final(self).tokens_micro == if admitted {
                    refilled - TOKEN_MICRO
                } else {
                    refilled
                }
            }),
            final(self).last_refill_ms == if now_ms >= old(self).last_refill_ms {
                now_ms
            } else {
                old(self).last_refill_ms
            },
            final(self).rate_per_second == old(self).rate_per_second,
            final(self).burst == old(self).burst,
            final(self).multiplier_permille == old(self).multiplier_permille,
    {
        let elapsed: u64 = if now_ms >= self.last_refill_ms {
            now_ms - self.last_refill_ms
        } else {
            0
        };
        let cap: u64 = self.burst as u64 * TOKEN_MICRO;
        assert(elapsed as u128 * self.rate_per_second as u128
            <= 0xffff_ffff_ffff_ffffu128 * 1_000_000) by (nonlinear_arith)
            requires
                elapsed <= 0xffff_ffff_ffff_ffffu64,
                self.rate_per_second <= 1_000_000,
        ;
        let scaled: u128 = elapsed as u128 * self.rate_per_second as u128;
        assert(scaled * self.multiplier_permille as u128
            <= 0xffff_ffff_ffff_ffffu128 * 1_000_000 * 1000) by (nonlinear_arith)
            requires
                scaled <= 0xffff_ffff_ffff_ffffu128 * 1_000_000,
                self.multiplier_permille <= 1000,
        ;
        let gained: u128 = scaled * self.multiplier_permille as u128;
        let refilled128: u128 = self.tokens_micro as u128 + gained;
        let refilled: u64 = if refilled128 >= cap as u128 {
            cap
        } else {
            refilled128 as u64
        };
        if now_ms >= self.last_refill_ms {
            self.last_refill_ms = now_ms;
        }
        if refilled >= TOKEN_MICRO {
            self.tokens_micro = refilled - TOKEN_MICRO;
            true
        } else {
            self.tokens_micro = refilled;
            false
        }
    }

    /// Whole tokens currently held (for reporting).
    pub fn tokens_whole(&self) -> (r: u64)
        ensures
            r == self.tokens_micro / TOKEN_MICRO,
    {
        self.tokens_micro / TOKEN_MICRO
    }
}

// ---------------------------------------------------------------------------
// The admission-count law, over a mathematical trace of admission checks.
// ---------------------------------------------------------------------------

/// A trace of admission checks against one bucket: the bucket is created at
/// `t_start` holding `init` micro-tokens; check `k` happens at `times[k]`
/// with the multiplier `mults[k]` then in force.
pub struct BucketTrace {
    pub t_start: int,
    pub init: int,
    pub rate: int,
    pub cap: int,
    pub times: Seq<int>,
    pub mults: Seq<int>,
}

impl BucketTrace {
    pub open spec fn wf(self) -> bool {
        &&& 0 <= self.rate
        &&& 0 <= self.init <= self.cap
        &&& self.mults.len() == self.times.len()
        &&& forall|k: int| 0 <= k < self.mults.len() ==> 0 <= #[trigger] self.mults[k] <= 1000
        &&& forall|k: int| 0 <= k < self.times.len() ==> #[trigger] self.times[k]
            >= if k == 0 { self.t_start } else { self.times[k - 1] }
    }

    /// The instant the bucket was last refilled before check `k`.
    pub open spec fn prev_time(self, k: int) -> int {
        if k == 0 {
            self.t_start
        } else {
            self.times[k - 1]
        }
    }

    /// Micro-tokens held after the bucket has processed checks `0..=k`
    /// (`k == -1` is the initial state).
    pub open spec fn tokens_after(self, k: int) -> int
        decreases k + 1,
    {
        if k < 0 {
            self.init
        } else {
            let refilled = spec_refill(
                self.tokens_after(k - 1),
                self.times[k] - self.prev_time(k),
                self.rate,
                self.mults[k],
                self.cap,
            );
            if refilled >= 1_000_000 {
                refilled - 1_000_000
            } else {
                refilled
            }
        }
    }

    /// Whether check `k` is admitted.
    pub open spec fn admitted(self, k: int) -> bool {
        spec_refill(
            self.tokens_after(k - 1),
            self.times[k] - self.prev_time(k),
            self.rate,
            self.mults[k],
            self.cap,
        ) >= 1_000_000
    }

    /// How many of the checks `i..j` are admitted.
    pub open spec fn count_admitted(self, i: int, j: int) -> int
        decreases j - i,
    {
        if j <= i {
            0
        } else {
            self.count_admitted(i, j - 1) + if self.admitted(j - 1) {
                1int
            } else {
                0int
            }
        }
    }
}

proof fn lemma_tokens_after_bounds(tr: BucketTrace, k: int)
    requires
        tr.wf(),
        -1 <= k < tr.times.len(),
    ensures
        0 <= tr.tokens_after(k) <= tr.cap,
    decreases k + 1,
{
    if k >= 0 {
        lemma_tokens_after_bounds(tr, k - 1);
        let d = tr.times[k] - tr.prev_time(k);
        assert(d >= 0);
        assert(d * tr.rate * tr.mults[k] >= 0) by (nonlinear_arith)
            requires
                d >= 0,
                tr.rate >= 0,
                tr.mults[k] >= 0,
        ;
    }
}

/// One step of the window bound: refilling over `d` milliseconds at any
/// multiplier at most `m_max` adds at most `d * rate * m_max` micro-tokens.
proof fn lemma_refill_upper(tokens: int, d: int, rate: int, mult: int, cap: int, m_max: int)
    requires
        d >= 0,
        rate >= 0,
        0 <= mult <= m_max,
    ensures
        spec_refill(tokens, d, rate, mult, cap) <= tokens + d * rate * m_max,
{
    assert(d * rate * mult <= d * rate * m_max) by (nonlinear_arith)
        requires
            d >= 0,
            rate >= 0,
            mult <= m_max,
    ;
}

proof fn lemma_window_bound_aux(tr: BucketTrace, i: int, j: int, m_max: int)
    requires
        tr.wf(),
        0 <= i < j <= tr.times.len(),
        m_max >= 0,
        forall|k: int| i <= k < j ==> #[trigger] tr.mults[k] <= m_max,
    ensures
        1_000_000 * tr.count_admitted(i, j) + tr.tokens_after(j - 1)
            <= tr.cap + (tr.times[j - 1] - tr.times[i]) * tr.rate * m_max,
    decreases j - i,
{
    if j == i + 1 {
        lemma_tokens_after_bounds(tr, i - 1);
        let d = tr.times[i] - tr.prev_time(i);
        lemma_refill_upper(tr.tokens_after(i - 1), d, tr.rate, tr.mults[i], tr.cap, m_max);
        let refilled = spec_refill(tr.tokens_after(i - 1), d, tr.rate, tr.mults[i], tr.cap);
        assert(refilled <= tr.cap);
        assert(tr.count_admitted(i, i) == 0);
        assert(tr.count_admitted(i, j) == if tr.admitted(i) { 1int } else { 0int });
        assert(1_000_000 * tr.count_admitted(i, j) + tr.tokens_after(i) == refilled);
        assert((tr.times[i] - tr.times[i]) * tr.rate * m_max == 0) by (nonlinear_arith);
    } else {
        lemma_window_bound_aux(tr, i, j - 1, m_max);
        let k = j - 1;
        let d = tr.times[k] - tr.prev_time(k);
        assert(d >= 0);
        lemma_refill_upper(tr.tokens_after(k - 1), d, tr.rate, tr.mults[k], tr.cap, m_max);
        let refilled = spec_refill(tr.tokens_after(k - 1), d, tr.rate, tr.mults[k], tr.cap);
        assert(1_000_000 * tr.count_admitted(i, j) + tr.tokens_after(k)
            == 1_000_000 * tr.count_admitted(i, j - 1) + refilled);
        assert((tr.times[k - 1] - tr.times[i]) * tr.rate * m_max + d * tr.rate * m_max
            == (tr.times[k] - tr.times[i]) * tr.rate * m_max) by (nonlinear_arith)
            requires
                d == tr.times[k] - tr.times[k - 1],
        ;
    }
}

/// Sliding-window admission law: over any window of checks `i..j`, the number
/// admitted never exceeds the burst capacity plus what full-rate refill could
/// add over the window. In whole tokens: admitted <= burst + rate x window
/// seconds, whatever the admission times and multiplier changes.
pub proof fn lemma_sliding_window_admission(tr: BucketTrace, i: int, j: int)
    requires
        tr.wf(),
        0 <= i < j <= tr.times.len(),
    ensures
        1_000_000 * tr.count_admitted(i, j)
            <= tr.cap + (tr.times[j - 1] - tr.times[i]) * tr.rate * 1000,
{
    lemma_sliding_window_admission_scaled(tr, i, j, 1000);
}

/// The adaptive-throughput law: when every check in the window runs under a
/// multiplier of at most `m_max` thousandths, the number admitted never
/// exceeds the burst capacity plus the scaled refill. In whole tokens:
/// admitted <= burst + (m_max/1000) x rate x window seconds — so after the
/// health drops to Degraded (600), sustained throughput is capped at
/// 0.6 x rate.
pub proof fn lemma_sliding_window_admission_scaled(tr: BucketTrace, i: int, j: int, m_max: int)
    requires
        tr.wf(),
        0 <= i < j <= tr.times.len(),
        m_max >= 0,
        forall|k: int| i <= k < j ==> #[trigger] tr.mults[k] <= m_max,
    ensures
        1_000_000 * tr.count_admitted(i, j)
            <= tr.cap + (tr.times[j - 1] - tr.times[i]) * tr.rate * m_max,
{
    lemma_window_bound_aux(tr, i, j, m_max);
    lemma_tokens_after_bounds(tr, j - 1);
}

} // verus!
