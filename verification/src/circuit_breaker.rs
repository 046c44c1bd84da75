//! Per-service circuit breaking: Closed / Open / HalfOpen state machines
//! keyed by downstream service name.

use vstd::prelude::*;
use crate::config::CircuitBreakerConfig;
use crate::strutil::str_eq;

verus! {

#[derive(Debug, Clone, Copy, PartialEq, Eq, Structural)]
pub enum CircuitState {
    Closed,
    Open,
    HalfOpen,
}

/// What the breaker decides for one request.
#[derive(Debug, Clone, Copy, PartialEq, Eq, Structural)]
pub enum GateDecision {
    /// Closed: pass through.
    Allow,
    /// HalfOpen: pass through as one of the limited trials.
    AllowTrial,
    /// Fail fast; `retry_after_ms` is the time left until HalfOpen, when known.
    FastFail { retry_after_ms: Option<u64> },
}

/// Failure-tracking record for one downstream service.
///
/// Counters reset to zero on every state transition; the consecutive-success
/// counter is meaningful only in HalfOpen; `half_open_trials` counts trials
/// currently in flight.
pub struct CircuitBreakerRecord {
    pub service_name: String,
    pub state: CircuitState,
    pub consecutive_failures: u32,
    pub consecutive_successes: u32,
    pub last_transition_ms: u64,
    pub half_open_trials: u32,
}

impl CircuitBreakerRecord {
    pub open spec fn wf(self, cfg: CircuitBreakerConfig) -> bool {
        &&& match self.state {
            CircuitState::Closed => {
                &&& self.consecutive_failures < cfg.failure_threshold
                &&& self.consecutive_successes == 0
                &&& self.half_open_trials == 0
            },
            CircuitState::Open => {
                &&& self.consecutive_failures == 0
                &&& self.consecutive_successes == 0
                &&& self.half_open_trials == 0
            },
            CircuitState::HalfOpen => {
                &&& self.consecutive_failures == 0
                &&& self.consecutive_successes < cfg.success_threshold
                &&& self.half_open_trials <= cfg.half_open_max_requests
            },
        }
    }

    /// A fresh record: Closed with zero counters.
    pub fn new(service_name: String, now_ms: u64, cfg: &CircuitBreakerConfig) -> (r:
        CircuitBreakerRecord)
        requires
            cfg.wf(),
        ensures
            r.wf(*cfg),
            r.service_name == service_name,
            r.state == CircuitState::Closed,
            r.consecutive_failures == 0,
            r.consecutive_successes == 0,
            r.half_open_trials == 0,
            r.last_transition_ms == now_ms,
    {
        CircuitBreakerRecord {
            service_name,
            state: CircuitState::Closed,
            consecutive_failures: 0,
            consecutive_successes: 0,
            last_transition_ms: now_ms,
            half_open_trials: 0,
        }
    }

    /// Gates one request.
    ///
    /// Closed always allows. Open fails fast until `reset_timeout_ms` has
    /// elapsed since the transition, then moves to HalfOpen and allows a
    /// trial. HalfOpen allows a trial only while fewer than
    /// `half_open_max_requests` trials are in flight, and fails fast
    /// otherwise.
    pub fn check(&mut self, cfg: &CircuitBreakerConfig, now_ms: u64) -> (d: GateDecision)
        requires
            old(self).wf(*cfg),
            cfg.wf(),
        ensures
            final(self).wf(*cfg),
            final(self).service_name == old(self).service_name,
            old(self).state == CircuitState::Closed ==> d == GateDecision::Allow
                && *final(self) == *old(self),
            old(self).state == CircuitState::Open ==> {
                let elapsed = if now_ms >= old(self).last_transition_ms {
                    now_ms - old(self).last_transition_ms
                } else {
                    0int
                };
                if elapsed >= cfg.reset_timeout_ms {
                    // timeout elapsed: HalfOpen, this request is the first trial
                    &&& d == GateDecision::AllowTrial
                    &&& final(self).state == CircuitState::HalfOpen
                    &&& final(self).half_open_trials == 1
                    &&& final(self).consecutive_successes == 0
                    &&& final(self).last_transition_ms == now_ms
                } else {
                    &&& d == (GateDecision::FastFail {
                        retry_after_ms: Some((cfg.reset_timeout_ms - elapsed) as u64),
                    })
                    &&& *final(self) == *old(self)
                }
            },
            old(self).state == CircuitState::HalfOpen ==> {
                if old(self).half_open_trials < cfg.half_open_max_requests {
                    &&& d == GateDecision::AllowTrial
                    &&& *final(self) == (CircuitBreakerRecord {
                        half_open_trials: (old(self).half_open_trials + 1) as u32,
                        ..*old(self)
                    })
                } else {
                    &&& d == (GateDecision::FastFail { retry_after_ms: None })
                    &&& *final(self) == *old(self)
                }
            },
    {
        match self.state {
            CircuitState::Closed => GateDecision::Allow,
            CircuitState::Open => {
                let elapsed: u64 = if now_ms >= self.last_transition_ms {
                    now_ms - self.last_transition_ms
                } else {
                    0
                };
                if elapsed >= cfg.reset_timeout_ms {
                    self.state = CircuitState::HalfOpen;
                    self.consecutive_failures = 0;
                    self.consecutive_successes = 0;
                    self.half_open_trials = 1;
                    self.last_transition_ms = now_ms;
                    GateDecision::AllowTrial
                } else {
                    let remaining: u64 = cfg.reset_timeout_ms - elapsed;
                    GateDecision::FastFail { retry_after_ms: Some(remaining) }
                }
            },
            CircuitState::HalfOpen => {
                if self.half_open_trials < cfg.half_open_max_requests {
                    self.half_open_trials = self.half_open_trials + 1;
                    GateDecision::AllowTrial
                } else {
                    GateDecision::FastFail { retry_after_ms: None }
                }
            },
        }
    }

    /// Records a successful call.
    ///
    /// In Closed state a single success resets the consecutive-failure
    /// counter to zero. In HalfOpen a trial success increments the
    /// consecutive-success counter, and the record closes exactly when that
    /// counter reaches `success_threshold`.
    pub fn record_success(&mut self, cfg: &CircuitBreakerConfig, now_ms: u64)
        requires
            old(self).wf(*cfg),
            cfg.wf(),
        ensures
            final(self).wf(*cfg),
            final(self).service_name == old(self).service_name,
            old(self).state == CircuitState::Closed ==> *final(self) == (CircuitBreakerRecord {
                consecutive_failures: 0,
                ..*old(self)
            }),
            old(self).state == CircuitState::Open ==> *final(self) == *old(self),
            old(self).state == CircuitState::HalfOpen ==> {
                if old(self).consecutive_successes + 1 >= cfg.success_threshold {
                    &&& final(self).state == CircuitState::Closed
                    &&& final(self).consecutive_failures == 0
                    &&& final(self).consecutive_successes == 0
                    &&& final(self).half_open_trials == 0
                    &&& final(self).last_transition_ms == now_ms
                } else {
                    &&& final(self).state == CircuitState::HalfOpen
                    &&& final(self).consecutive_successes == old(self).consecutive_successes + 1
                    &&& final(self).half_open_trials == if old(self).half_open_trials > 0 {
                        old(self).half_open_trials - 1
                    } else {
                        0
                    }
                    &&& final(self).last_transition_ms == old(self).last_transition_ms
                }
            },
    {
        match self.state {
            CircuitState::Closed => {
                self.consecutive_failures = 0;
            },
            CircuitState::Open => {},
            CircuitState::HalfOpen => {
                if self.consecutive_successes + 1 >= cfg.success_threshold {
                    self.state = CircuitState::Closed;
                    self.consecutive_failures = 0;
                    self.consecutive_successes = 0;
                    self.half_open_trials = 0;
                    self.last_transition_ms = now_ms;
                } else {
                    self.consecutive_successes = self.consecutive_successes + 1;
                    if self.half_open_trials > 0 {
                        self.half_open_trials = self.half_open_trials - 1;
                    }
                }
            },
        }
    }

    /// Records a failed call.
    ///
    /// The record opens exactly when a Closed record takes its
    /// `failure_threshold`-th consecutive failure, never earlier or later;
    /// any failure in HalfOpen reopens at once and restarts the Open timer.
    pub fn record_failure(&mut self, cfg: &CircuitBreakerConfig, now_ms: u64)
        requires
            old(self).wf(*cfg),
            cfg.wf(),
        ensures
            final(self).wf(*cfg),
            final(self).service_name == old(self).service_name,
            old(self).state == CircuitState::Closed ==> {
                if old(self).consecutive_failures + 1 == cfg.failure_threshold {
                    &&& final(self).state == CircuitState::Open
                    &&& final(self).consecutive_failures == 0
                    &&& final(self).consecutive_successes == 0
                    &&& final(self).half_open_trials == 0
                    &&& final(self).last_transition_ms == now_ms
                } else {
                    &&& final(self).state == CircuitState::Closed
                    &&& final(self).consecutive_failures == old(self).consecutive_failures + 1
                    &&& final(self).last_transition_ms == old(self).last_transition_ms
                }
            },
            old(self).state == CircuitState::HalfOpen ==> {
                &&& final(self).state == CircuitState::Open
                &&& final(self).consecutive_failures == 0
                &&& final(self).consecutive_successes == 0
                &&& final(self).half_open_trials == 0
                &&& final(self).last_transition_ms == now_ms
            },
            old(self).state == CircuitState::Open ==> *final(self) == *old(self),
    {
        match self.state {
            CircuitState::Closed => {
                let next: u32 = self.consecutive_failures + 1;
                if next == cfg.failure_threshold {
                    self.state = CircuitState::Open;
                    self.consecutive_failures = 0;
                    self.consecutive_successes = 0;
                    self.half_open_trials = 0;
                    self.last_transition_ms = now_ms;
                } else {
                    self.consecutive_failures = next;
                }
            },
            CircuitState::HalfOpen => {
                self.state = CircuitState::Open;
                self.consecutive_failures = 0;
                self.consecutive_successes = 0;
                self.half_open_trials = 0;
                self.last_transition_ms = now_ms;
            },
            CircuitState::Open => {},
        }
    }

    /// Forces the record back to Closed with zero counters.
    pub fn force_reset(&mut self, cfg: &CircuitBreakerConfig, now_ms: u64)
        requires
            cfg.wf(),
        ensures
            final(self).wf(*cfg),
            final(self).service_name == old(self).service_name,
            final(self).state == CircuitState::Closed,
            final(self).consecutive_failures == 0,
            final(self).consecutive_successes == 0,
            final(self).half_open_trials == 0,
            final(self).last_transition_ms == now_ms,
    {
        self.state = CircuitState::Closed;
        self.consecutive_failures = 0;
        self.consecutive_successes = 0;
        self.half_open_trials = 0;
        self.last_transition_ms = now_ms;
    }
}

/// Whether the breaker lets a request through in this state.
pub open spec fn spec_gate_allows(
    r: CircuitBreakerRecord,
    cfg: CircuitBreakerConfig,
    now_ms: u64,
) -> bool {
    match r.state {
        CircuitState::Closed => true,
        CircuitState::Open => (if now_ms >= r.last_transition_ms {
            now_ms - r.last_transition_ms
        } else {
            0int
        }) >= cfg.reset_timeout_ms,
        CircuitState::HalfOpen => r.half_open_trials < cfg.half_open_max_requests,
    }
}

/// The decision `check` takes in a given state.
pub open spec fn spec_check_decision(
    r: CircuitBreakerRecord,
    cfg: CircuitBreakerConfig,
    now_ms: u64,
) -> GateDecision {
    match r.state {
        CircuitState::Closed => GateDecision::Allow,
        CircuitState::Open => if spec_gate_allows(r, cfg, now_ms) {
            GateDecision::AllowTrial
        } else {
            GateDecision::FastFail {
                retry_after_ms: Some(
                    (cfg.reset_timeout_ms - if now_ms >= r.last_transition_ms {
                        now_ms - r.last_transition_ms
                    } else {
                        0int
                    }) as u64,
                ),
            }
        },
        CircuitState::HalfOpen => if r.half_open_trials < cfg.half_open_max_requests {
            GateDecision::AllowTrial
        } else {
            GateDecision::FastFail { retry_after_ms: None }
        },
    }
}

/// The record after `check`.
pub open spec fn spec_after_check(
    r: CircuitBreakerRecord,
    cfg: CircuitBreakerConfig,
    now_ms: u64,
) -> CircuitBreakerRecord {
    match r.state {
        CircuitState::Closed => r,
        CircuitState::Open => if spec_gate_allows(r, cfg, now_ms) {
            CircuitBreakerRecord {
                state: CircuitState::HalfOpen,
                consecutive_failures: 0,
                consecutive_successes: 0,
                half_open_trials: 1,
                last_transition_ms: now_ms,
                ..r
            }
        } else {
            r
        },
        CircuitState::HalfOpen => if r.half_open_trials < cfg.half_open_max_requests {
            CircuitBreakerRecord { half_open_trials: (r.half_open_trials + 1) as u32, ..r }
        } else {
            r
        },
    }
}

/// The record after a recorded success.
pub open spec fn spec_after_success(
    r: CircuitBreakerRecord,
    cfg: CircuitBreakerConfig,
    now_ms: u64,
) -> CircuitBreakerRecord {
    match r.state {
        CircuitState::Closed => CircuitBreakerRecord { consecutive_failures: 0, ..r },
        CircuitState::Open => r,
        CircuitState::HalfOpen => if r.consecutive_successes + 1 >= cfg.success_threshold {
            CircuitBreakerRecord {
                state: CircuitState::Closed,
                consecutive_failures: 0,
                consecutive_successes: 0,
                half_open_trials: 0,
                last_transition_ms: now_ms,
                ..r
            }
        } else {
            CircuitBreakerRecord {
                consecutive_successes: (r.consecutive_successes + 1) as u32,
                half_open_trials: if r.half_open_trials > 0 {
                    (r.half_open_trials - 1) as u32
                } else {
                    0
                },
                ..r
            }
        },
    }
}

/// The record after a recorded failure.
pub open spec fn spec_after_failure(
    r: CircuitBreakerRecord,
    cfg: CircuitBreakerConfig,
    now_ms: u64,
) -> CircuitBreakerRecord {
    match r.state {
        CircuitState::Closed => if r.consecutive_failures + 1 == cfg.failure_threshold {
            CircuitBreakerRecord {
                state: CircuitState::Open,
                consecutive_failures: 0,
                consecutive_successes: 0,
                half_open_trials: 0,
                last_transition_ms: now_ms,
                ..r
            }
        } else {
            CircuitBreakerRecord {
                consecutive_failures: (r.consecutive_failures + 1) as u32,
                ..r
            }
        },
        CircuitState::Open => r,
        CircuitState::HalfOpen => CircuitBreakerRecord {
            state: CircuitState::Open,
            consecutive_failures: 0,
            consecutive_successes: 0,
            half_open_trials: 0,
            last_transition_ms: now_ms,
            ..r
        },
    }
}

/// All records, one per tracked downstream service name.
pub struct CircuitBreakerRegistry {
    pub records: Vec<CircuitBreakerRecord>,
}

/// How many records in `s` are not Closed.
pub open spec fn count_not_closed(s: Seq<CircuitBreakerRecord>) -> int
    decreases s.len(),
{
    if s.len() == 0 {
        0
    } else {
        count_not_closed(s.drop_last()) + if s.last().state != CircuitState::Closed {
            1int
        } else {
            0int
        }
    }
}

/// How many records in `s` are not Closed is never negative, and it is
/// positive as soon as one record is not Closed.
pub proof fn lemma_count_not_closed_pos(s: Seq<CircuitBreakerRecord>, k: int)
    requires
        0 <= k < s.len(),
        s[k].state != CircuitState::Closed,
    ensures
        count_not_closed(s) > 0,
    decreases s.len(),
{
    lemma_count_not_closed_nonneg(s.drop_last());
    if k < s.len() - 1 {
        lemma_count_not_closed_pos(s.drop_last(), k);
    }
}

pub proof fn lemma_count_not_closed_nonneg(s: Seq<CircuitBreakerRecord>)
    ensures
        count_not_closed(s) >= 0,
    decreases s.len(),
{
    if s.len() > 0 {
        lemma_count_not_closed_nonneg(s.drop_last());
    }
}

impl CircuitBreakerRegistry {
    /// No two records track the same service.
    pub open spec fn names_distinct(self) -> bool {
        forall|k1: int, k2: int|
            0 <= k1 < k2 < self.records@.len() ==> (#[trigger] self.records@[k1]).service_name@
                != (#[trigger] self.records@[k2]).service_name@
    }

    pub open spec fn wf(self, cfg: CircuitBreakerConfig) -> bool {
        &&& forall|k: int| 0 <= k < self.records@.len() ==> (#[trigger] self.records@[k]).wf(cfg)
        &&& self.names_distinct()
    }

    /// Whether some record tracks `name`.
    pub open spec fn spec_has(self, name: Seq<char>) -> bool {
        exists|k: int| 0 <= k < self.records@.len()
            && (#[trigger] self.records@[k]).service_name@ == name
    }

    pub fn new() -> (r: CircuitBreakerRegistry)
        ensures
            r.records@.len() == 0,
            forall|cfg: CircuitBreakerConfig| r.wf(cfg),
    {
        CircuitBreakerRegistry { records: Vec::new() }
    }

    /// Finds the record for `name`.
    pub fn find_index(&self, name: &str) -> (r: Option<usize>)
        ensures
            match r {
                Some(k) => 0 <= k < self.records@.len() && self.records@[k as int].service_name@
                    == name@,
                None => !self.spec_has(name@),
            },
    {
        let mut k: usize = 0;
        while k < self.records.len()
            invariant
                0 <= k <= self.records@.len(),
                forall|j: int| 0 <= j < k ==> (#[trigger] self.records@[j]).service_name@
                    != name@,
            decreases self.records@.len() - k,
        {
            if str_eq(self.records[k].service_name.as_str(), name) {
                return Some(k);
            }
            k = k + 1;
        }
        None
    }

    /// Returns the index of the record for `name`, creating a Closed record
    /// if the service is not yet tracked.
    pub fn ensure_record(&mut self, name: &str, now_ms: u64, cfg: &CircuitBreakerConfig) -> (k:
        usize)
        requires
            old(self).wf(*cfg),
            cfg.wf(),
        ensures
            final(self).wf(*cfg),
            0 <= k < final(self).records@.len(),
            final(self).records@[k as int].service_name@ == name@,
            old(self).spec_has(name@) ==> *final(self) == *old(self),
            !old(self).spec_has(name@) ==> {
                &&& final(self).records@.len() == old(self).records@.len() + 1
                &&& k == old(self).records@.len()
                &&& final(self).records@.drop_last() =~= old(self).records@
                &&& final(self).records@[k as int].state == CircuitState::Closed
                &&& final(self).records@[k as int].consecutive_failures == 0
                &&& final(self).records@[k as int].consecutive_successes == 0
                &&& final(self).records@[k as int].half_open_trials == 0
                &&& final(self).records@[k as int].last_transition_ms == now_ms
            },
    {
        match self.find_index(name) {
            Some(k) => k,
            None => {
                let rec = CircuitBreakerRecord::new(name.to_owned(), now_ms, cfg);
                self.records.push(rec);
                self.records.len() - 1
            },
        }
    }

    /// Gates one request at the record with index `idx`.
    pub fn check_at(&mut self, idx: usize, cfg: &CircuitBreakerConfig, now_ms: u64) -> (d:
        GateDecision)
        requires
            old(self).wf(*cfg),
            cfg.wf(),
            idx < old(self).records@.len(),
        ensures
            final(self).wf(*cfg),
            d == spec_check_decision(old(self).records@[idx as int], *cfg, now_ms),
            final(self).records@ =~= old(self).records@.update(
                idx as int,
                spec_after_check(old(self).records@[idx as int], *cfg, now_ms),
            ),
    {
        let ghost pre: Seq<CircuitBreakerRecord> = self.records@;
        let d = self.records[idx].check(cfg, now_ms);
        proof {
            Self::lemma_update_keeps_wf(pre, self.records@, idx as int, *cfg);
        }
        d
    }

    /// Records a successful call at the record with index `idx`.
    pub fn success_at(&mut self, idx: usize, cfg: &CircuitBreakerConfig, now_ms: u64)
        requires
            old(self).wf(*cfg),
            cfg.wf(),
            idx < old(self).records@.len(),
        ensures
            final(self).wf(*cfg),
            final(self).records@ =~= old(self).records@.update(
                idx as int,
                spec_after_success(old(self).records@[idx as int], *cfg, now_ms),
            ),
    {
        let ghost pre: Seq<CircuitBreakerRecord> = self.records@;
        self.records[idx].record_success(cfg, now_ms);
        proof {
            Self::lemma_update_keeps_wf(pre, self.records@, idx as int, *cfg);
        }
    }

    /// Records a failed call at the record with index `idx`.
    pub fn failure_at(&mut self, idx: usize, cfg: &CircuitBreakerConfig, now_ms: u64)
        requires
            old(self).wf(*cfg),
            cfg.wf(),
            idx < old(self).records@.len(),
        ensures
            final(self).wf(*cfg),
            final(self).records@ =~= old(self).records@.update(
                idx as int,
                spec_after_failure(old(self).records@[idx as int], *cfg, now_ms),
            ),
    {
        let ghost pre: Seq<CircuitBreakerRecord> = self.records@;
        self.records[idx].record_failure(cfg, now_ms);
        proof {
            Self::lemma_update_keeps_wf(pre, self.records@, idx as int, *cfg);
        }
    }

    /// Updating one record in place, keeping its name and well-formedness,
    /// keeps the registry well formed.
    proof fn lemma_update_keeps_wf(
        pre: Seq<CircuitBreakerRecord>,
        post: Seq<CircuitBreakerRecord>,
        idx: int,
        cfg: CircuitBreakerConfig,
    )
        requires
            0 <= idx < pre.len(),
            post.len() == pre.len(),
            forall|k: int| 0 <= k < pre.len() && k != idx ==> post[k] == pre[k],
            post[idx].wf(cfg),
            post[idx].service_name@ == pre[idx].service_name@,
            forall|k: int| 0 <= k < pre.len() ==> (#[trigger] pre[k]).wf(cfg),
            forall|k1: int, k2: int|
                0 <= k1 < k2 < pre.len() ==> (#[trigger] pre[k1]).service_name@ != (
                #[trigger] pre[k2]).service_name@,
        ensures
            forall|k: int| 0 <= k < post.len() ==> (#[trigger] post[k]).wf(cfg),
            forall|k1: int, k2: int|
                0 <= k1 < k2 < post.len() ==> (#[trigger] post[k1]).service_name@ != (
                #[trigger] post[k2]).service_name@,
    {
        assert forall|k1: int, k2: int| 0 <= k1 < k2 < post.len() implies (
        #[trigger] post[k1]).service_name@ != (#[trigger] post[k2]).service_name@ by {
            assert(post[k1].service_name@ == pre[k1].service_name@);
            assert(post[k2].service_name@ == pre[k2].service_name@);
        }
    }

    /// Makes every record well formed under a new configuration by clamping
    /// counters below the new thresholds; states, names, and timers are kept,
    /// so lowered thresholds take effect from the next recorded event.
    pub fn clamp_to_config(&mut self, cfg: &CircuitBreakerConfig)
        requires
            old(self).names_distinct(),
            cfg.wf(),
        ensures
            final(self).wf(*cfg),
            final(self).records@.len() == old(self).records@.len(),
            forall|k: int|
                0 <= k < final(self).records@.len() ==> {
                    &&& (#[trigger] final(self).records@[k]).service_name@ == old(
                        self,
                    ).records@[k].service_name@
                    &&& final(self).records@[k].state == old(self).records@[k].state
                    &&& final(self).records@[k].last_transition_ms == old(
                        self,
                    ).records@[k].last_transition_ms
                },
    {
        let ghost orig: Seq<CircuitBreakerRecord> = self.records@;
        let n = self.records.len();
        let mut k: usize = 0;
        while k < n
            invariant
                cfg.wf(),
                n == self.records@.len(),
                self.records@.len() == orig.len(),
                0 <= k <= n,
                forall|j: int| k <= j < orig.len() ==> self.records@[j] == orig[j],
                forall|j: int|
                    0 <= j < k ==> {
                        &&& (#[trigger] self.records@[j]).wf(*cfg)
                        &&& self.records@[j].service_name@ == orig[j].service_name@
                        &&& self.records@[j].state == orig[j].state
                        &&& self.records@[j].last_transition_ms == orig[j].last_transition_ms
                    },
            decreases n - k,
        {
            let ghost prev: Seq<CircuitBreakerRecord> = self.records@;
            let mut rec = self.records.remove(k);
            match rec.state {
                CircuitState::Closed => {
                    if rec.consecutive_failures >= cfg.failure_threshold {
                        rec.consecutive_failures = cfg.failure_threshold - 1;
                    }
                    rec.consecutive_successes = 0;
                    rec.half_open_trials = 0;
                },
                CircuitState::Open => {
                    rec.consecutive_failures = 0;
                    rec.consecutive_successes = 0;
                    rec.half_open_trials = 0;
                },
                CircuitState::HalfOpen => {
                    rec.consecutive_failures = 0;
                    if rec.consecutive_successes >= cfg.success_threshold {
                        rec.consecutive_successes = cfg.success_threshold - 1;
                    }
                    if rec.half_open_trials > cfg.half_open_max_requests {
                        rec.half_open_trials = cfg.half_open_max_requests;
                    }
                },
            }
            self.records.insert(k, rec);
            proof {
                assert(self.records@ =~= prev.update(k as int, rec));
            }
            k = k + 1;
        }
        proof {
            assert forall|k1: int, k2: int|
                0 <= k1 < k2 < self.records@.len() implies (
            #[trigger] self.records@[k1]).service_name@ != (
            #[trigger] self.records@[k2]).service_name@ by {
                assert(self.records@[k1].service_name@ == orig[k1].service_name@);
                assert(self.records@[k2].service_name@ == orig[k2].service_name@);
            }
        }
    }

    /// Forces every tracked record to Closed with zero counters; returns how
    /// many were not already Closed.
    pub fn reset_all(&mut self, cfg: &CircuitBreakerConfig, now_ms: u64) -> (n: usize)
        requires
            old(self).wf(*cfg),
            cfg.wf(),
        ensures
            final(self).wf(*cfg),
            final(self).records@.len() == old(self).records@.len(),
            n == count_not_closed(old(self).records@),
            forall|k: int| 0 <= k < final(self).records@.len() ==> {
                &&& (#[trigger] final(self).records@[k]).state == CircuitState::Closed
                &&& final(self).records@[k].consecutive_failures == 0
                &&& final(self).records@[k].consecutive_successes == 0
                &&& final(self).records@[k].half_open_trials == 0
                &&& final(self).records@[k].service_name@ == old(self).records@[
                    k
                ].service_name@
            },
    {
        let ghost orig: Seq<CircuitBreakerRecord> = self.records@;
        let mut n: usize = 0;
        let mut k: usize = 0;
        while k < self.records.len()
            invariant
                cfg.wf(),
                self.records@.len() == orig.len(),
                0 <= k <= orig.len(),
                n == count_not_closed(orig.subrange(0, k as int)),
                n <= k,
                forall|j: int| k <= j < orig.len() ==> self.records@[j] == orig[j],
                forall|j: int| 0 <= j < k ==> {
                    &&& (#[trigger] self.records@[j]).state == CircuitState::Closed
                    &&& self.records@[j].consecutive_failures == 0
                    &&& self.records@[j].consecutive_successes == 0
                    &&& self.records@[j].half_open_trials == 0
                    &&& self.records@[j].service_name@ == orig[j].service_name@
                    &&& self.records@[j].wf(*cfg)
                },
            decreases orig.len() - k,
        {
            let was_open: bool = {
                let st = self.records[k].state;
                !(st == CircuitState::Closed)
            };
            let mut rec = self.records.remove(k);
            rec.force_reset(cfg, now_ms);
            self.records.insert(k, rec);
            if was_open {
                n = n + 1;
            }
            proof {
                assert(orig.subrange(0, k + 1).drop_last() =~= orig.subrange(0, k as int));
                assert(orig.subrange(0, k + 1).last() == orig[k as int]);
            }
            k = k + 1;
        }
        proof {
            assert(orig.subrange(0, orig.len() as int) =~= orig);
        }
        n
    }
}

} // verus!
