//! The resilient booking API client core: one synchronous state machine that
//! admits, enqueues, gates, and accounts every request. An async shell can
//! drive it, performing transport calls and sleeps between steps.

use vstd::prelude::*;
use vstd::string::StringExecFns;
use crate::SystemHealth;
use crate::circuit_breaker::{
    count_not_closed, lemma_count_not_closed_pos, spec_after_check, spec_after_failure,
    spec_after_success, spec_gate_allows, CircuitBreakerRegistry, CircuitState, GateDecision,
};
use crate::config::ClientConfig;
use crate::errors::{ApiError, ClientError};
use crate::rate_limiter::{spec_elapsed, spec_refill, TokenBucket, TOKEN_MICRO};
use crate::retry::{next_retry_decision, spec_is_retryable, RetryDecision};
use crate::scheduler::{spec_effective_priority, PriorityScheduler, QueueEntry};
use crate::stats::StatsAggregator;
use crate::types::{ClientStats, RequestPriority};

verus! {

/// The client: token bucket, per-service circuit breakers, priority
/// scheduler, and statistics, driven under one lock-step interface.
pub struct BookingApiClient {
    pub config: ClientConfig,
    pub bucket: TokenBucket,
    pub breakers: CircuitBreakerRegistry,
    pub scheduler: PriorityScheduler,
    pub stats: StatsAggregator,
    pub health: SystemHealth,
    pub paused: bool,
}

impl BookingApiClient {
    pub open spec fn wf(self) -> bool {
        &&& self.config.wf()
        &&& self.bucket.wf()
        &&& self.bucket.rate_per_second == self.config.max_requests_per_second
        &&& self.bucket.burst == self.config.max_burst_size
        &&& self.bucket.multiplier_permille == self.health.spec_multiplier_permille()
        &&& self.breakers.wf(self.config.circuit_breaker_config)
        &&& self.scheduler.wf()
        &&& self.scheduler.max_concurrent == self.config.max_concurrent_requests
        &&& self.stats.wf()
    }

    /// Creates a client; rejects a configuration whose limits are zero or
    /// beyond what exact 64-bit accounting supports.
    pub fn new(config: ClientConfig, now_ms: u64) -> (r: Result<BookingApiClient, ClientError>)
        ensures
            r is Ok <==> config.wf(),
            r matches Ok(c) ==> {
                &&& c.wf()
                &&& c.config == config
                &&& c.paused == false
                &&& c.health == SystemHealth::Healthy
                &&& c.bucket.tokens_micro == c.bucket.spec_cap_micro()
                &&& c.bucket.last_refill_ms == now_ms
                &&& c.scheduler.spec_depth() == 0
                &&& c.scheduler.executing == 0
                &&& c.scheduler.next_seq == 0
                &&& c.breakers.records@.len() == 0
                &&& c.stats.requests_sent == 0
                &&& c.stats.requests_succeeded == 0
                &&& c.stats.requests_failed == 0
                &&& c.stats.requests_throttled == 0
                &&& c.stats.requests_retried == 0
                &&& c.stats.requests_preempted == 0
                &&& c.stats.requests_timeout == 0
                &&& c.stats.requests_circuit_broken == 0
                &&& c.stats.latency_count == 0
                &&& c.stats.average_ms == 0
                &&& c.stats.max_ms == 0
                &&& c.stats.samples@.len() == 0
            },
    {
        if !config.is_valid() {
            return Err(ClientError::ConfigError(String::from_str("invalid configuration")));
        }
        let bucket = TokenBucket::new(config.max_requests_per_second, config.max_burst_size, now_ms);
        let scheduler = PriorityScheduler::new(
            config.queue_size_per_priority,
            config.max_concurrent_requests,
        );
        Ok(
            BookingApiClient {
                config,
                bucket,
                breakers: CircuitBreakerRegistry::new(),
                scheduler,
                stats: StatsAggregator::new(),
                health: SystemHealth::Healthy,
                paused: false,
            },
        )
    }

    /// Sets the observed system health; the returned multiplier (thousandths)
    /// scales the refill rate of all subsequent admission checks at once.
    pub fn set_system_health(&mut self, health: SystemHealth) -> (r: u64)
        requires
            old(self).wf(),
        ensures
            final(self).wf(),
            r == health.spec_multiplier_permille(),
            final(self).health == health,
            final(self).bucket.multiplier_permille == r,
            final(self).bucket.tokens_micro == old(self).bucket.tokens_micro,
            final(self).scheduler == old(self).scheduler,
            final(self).breakers == old(self).breakers,
            final(self).stats == old(self).stats,
            final(self).config == old(self).config,
            final(self).paused == old(self).paused,
    {
        let m = health.multiplier_permille();
        self.health = health;
        self.bucket.set_multiplier(m);
        m
    }

    /// Admission and enqueue as one atomic step.
    ///
    /// While paused, rejects with `ClientError`. A request that fails the
    /// token-bucket check is rejected with `RateLimitExceeded` and counted as
    /// throttled, and is not enqueued. A request whose (booking-raised)
    /// priority queue is full is rejected with `QueueFull` and counted as
    /// failed. Otherwise the request is queued; when the concurrency ceiling
    /// is reached and a strictly lower-priority entry is queued, that entry
    /// is removed, counted as preempted, and its id returned so its caller
    /// can be resolved with `RequestPreempted`.
    pub fn try_admit_and_enqueue(
        &mut self,
        correlation_id: String,
        priority: RequestPriority,
        is_booking: bool,
        deadline_ms: Option<u64>,
        now_ms: u64,
    ) -> (r: Result<Option<String>, ApiError>)
        requires
            old(self).wf(),
        ensures
            final(self).wf(),
            final(self).config == old(self).config,
            final(self).paused == old(self).paused,
            final(self).health == old(self).health,
            final(self).breakers == old(self).breakers,
            old(self).paused ==> (r matches Err(e) && e is ClientError && *final(self) == *old(self)),
            !old(self).paused ==> ({
                let refilled = spec_refill(
                    old(self).bucket.tokens_micro as int,
                    spec_elapsed(old(self).bucket.last_refill_ms as int, now_ms as int),
                    old(self).bucket.rate_per_second as int,
                    old(self).bucket.multiplier_permille as int,
                    old(self).bucket.spec_cap_micro(),
                );
                let admitted = refilled >= TOKEN_MICRO;
                &&& final(self).bucket.tokens_micro == if admitted {
                    refilled - TOKEN_MICRO
                } else {
                    refilled
                }
                &&& !admitted ==> {
                    &&& (r matches Err(e) && e is RateLimitExceeded)
                    &&& final(self).stats == (StatsAggregator {
                        requests_throttled: final(self).stats.requests_throttled,
                        ..old(self).stats
                    })
                    &&& final(self).stats.requests_throttled == if old(self).stats.requests_throttled == u64::MAX {
                        u64::MAX as int
                    } else {
                        old(self).stats.requests_throttled + 1
                    }
                    &&& final(self).scheduler == old(self).scheduler
                }
                &&& admitted ==> ({
                    let k = spec_effective_priority(priority, is_booking).spec_rank() as int;
                    match r {
                        Err(e) => {
                            &&& (e is QueueFull || old(self).scheduler.next_seq == u64::MAX)
                            &&& final(self).scheduler == old(self).scheduler
                            &&& e is QueueFull ==> {
                                &&& old(self).scheduler.queue_at(k).len() >= old(self).scheduler.queue_capacity
                                &&& final(self).stats == (StatsAggregator {
                                    requests_failed: final(self).stats.requests_failed,
                                    ..old(self).stats
                                })
                                &&& final(self).stats.requests_failed == if old(self).stats.requests_failed == u64::MAX {
                                    u64::MAX as int
                                } else {
                                    old(self).stats.requests_failed + 1
                                }
                            }
                        },
                        Ok(preempted) => {
                            let preempting = old(self).scheduler.executing >= old(self).scheduler.max_concurrent
                                && old(self).scheduler.spec_has_lower_queued(k);
                            let v = old(self).scheduler.spec_lowest_nonempty_below(k);
                            let entry = (QueueEntry {
                                correlation_id: correlation_id,
                                priority: spec_effective_priority(priority, is_booking),
                                seq: old(self).scheduler.next_seq,
                                enqueued_at_ms: now_ms,
                                deadline_ms: deadline_ms,
                                is_booking: is_booking,
                            });
                            &&& old(self).scheduler.queue_at(k).len() < old(self).scheduler.queue_capacity
                            &&& final(self).scheduler.next_seq == old(self).scheduler.next_seq + 1
                            &&& final(self).scheduler.executing == old(self).scheduler.executing
                            &&& if preempting {
                                // the oldest entry of the lowest queued priority left
                                &&& preempted == Some(old(self).scheduler.queue_at(v)[0].correlation_id)
                                &&& final(self).scheduler.queue_at(v) == old(self).scheduler.queue_at(v).drop_first()
                                &&& final(self).scheduler.queue_at(k) == old(self).scheduler.queue_at(k).push(entry)
                                &&& forall|j: int| 0 <= j < 4 && j != k && j != v
                                    ==> final(self).scheduler.queue_at(j) == old(self).scheduler.queue_at(j)
                                &&& final(self).stats == (StatsAggregator {
                                    requests_preempted: final(self).stats.requests_preempted,
                                    ..old(self).stats
                                })
                                &&& final(self).stats.requests_preempted == if old(self).stats.requests_preempted == u64::MAX {
                                    u64::MAX as int
                                } else {
                                    old(self).stats.requests_preempted + 1
                                }
                            } else {
                                &&& preempted == None::<String>
                                &&& final(self).scheduler.queue_at(k) == old(self).scheduler.queue_at(k).push(entry)
                                &&& forall|j: int| 0 <= j < 4 && j != k
                                    ==> final(self).scheduler.queue_at(j) == old(self).scheduler.queue_at(j)
                                &&& final(self).stats == old(self).stats
                            }
                        },
                    }
                })
            }),
    {
        if self.paused {
            return Err(ApiError::ClientError(String::from_str("client is paused")));
        }
        if !self.bucket.try_acquire(now_ms) {
            self.stats.requests_throttled = crate::stats::sat_inc(self.stats.requests_throttled);
            return Err(ApiError::RateLimitExceeded(String::from_str("rate limit exceeded")));
        }
        let res = self.scheduler.enqueue(correlation_id, priority, is_booking, deadline_ms, now_ms);
        match res {
            Err(e) => {
                if let ApiError::QueueFull = e {
                    self.stats.requests_failed = crate::stats::sat_inc(self.stats.requests_failed);
                    Err(ApiError::QueueFull)
                } else {
                    Err(e)
                }
            },
            Ok(preempted) => {
                match preempted {
                    Some(victim) => {
                        self.stats.requests_preempted = crate::stats::sat_inc(
                            self.stats.requests_preempted,
                        );
                        Ok(Some(victim))
                    },
                    None => Ok(None),
                }
            },
        }
    }

    /// Removes every queued request whose deadline has passed, counting each
    /// as a timeout; the returned correlation ids are exactly the removed
    /// entries', lowest priority first, so their callers can be resolved with
    /// `Timeout`.
    pub fn expire_deadlines(&mut self, now_ms: u64) -> (timed_out: Vec<String>)
        requires
            old(self).wf(),
        ensures
            final(self).wf(),
            final(self).config == old(self).config,
            final(self).bucket == old(self).bucket,
            final(self).breakers == old(self).breakers,
            final(self).paused == old(self).paused,
            final(self).health == old(self).health,
            forall|k: int| 0 <= k < 4 ==> final(self).scheduler.queue_at(k) == old(self).scheduler.queue_at(k).filter(crate::scheduler::spec_keep_pred(now_ms)),
            timed_out@.len() == old(self).scheduler.spec_depth() - final(self).scheduler.spec_depth(),
            timed_out@ == crate::scheduler::spec_expired_ids(old(self).scheduler.low@, now_ms)
                + crate::scheduler::spec_expired_ids(old(self).scheduler.medium@, now_ms)
                + crate::scheduler::spec_expired_ids(old(self).scheduler.high@, now_ms)
                + crate::scheduler::spec_expired_ids(old(self).scheduler.critical@, now_ms),
            final(self).scheduler.executing == old(self).scheduler.executing,
            final(self).scheduler.next_seq == old(self).scheduler.next_seq,
            final(self).scheduler.queue_capacity == old(self).scheduler.queue_capacity,
            final(self).scheduler.max_concurrent == old(self).scheduler.max_concurrent,
            final(self).stats == (StatsAggregator {
                requests_timeout: final(self).stats.requests_timeout,
                ..old(self).stats
            }),
            final(self).stats.requests_timeout == if old(self).stats.requests_timeout
                + timed_out@.len() > u64::MAX {
                u64::MAX as int
            } else {
                old(self).stats.requests_timeout + timed_out@.len()
            },
    {
        let timed_out = self.scheduler.remove_expired(now_ms);
        let ghost mid: BookingApiClient = *self;
        let mut k: usize = 0;
        while k < timed_out.len()
            invariant
                self.config == mid.config,
                self.bucket == mid.bucket,
                self.breakers == mid.breakers,
                self.scheduler == mid.scheduler,
                self.paused == mid.paused,
                self.health == mid.health,
                0 <= k <= timed_out@.len(),
                self.stats == (StatsAggregator {
                    requests_timeout: self.stats.requests_timeout,
                    ..mid.stats
                }),
                self.stats.requests_timeout == if mid.stats.requests_timeout + k > u64::MAX {
                    u64::MAX as int
                } else {
                    mid.stats.requests_timeout + k
                },
                self.stats.wf(),
            decreases timed_out@.len() - k,
        {
            self.stats.requests_timeout = crate::stats::sat_inc(self.stats.requests_timeout);
            k = k + 1;
        }
        timed_out
    }

    /// Dispatches the next request: the oldest entry of the highest nonempty
    /// priority queue, if an execution slot is free.
    pub fn dispatch_next(&mut self) -> (r: Option<QueueEntry>)
        requires
            old(self).wf(),
        ensures
            final(self).wf(),
            final(self).config == old(self).config,
            final(self).bucket == old(self).bucket,
            final(self).breakers == old(self).breakers,
            final(self).stats == old(self).stats,
            final(self).paused == old(self).paused,
            final(self).health == old(self).health,
            match r {
                None => {
                    &&& final(self).scheduler == old(self).scheduler
                    &&& (old(self).scheduler.executing >= old(self).scheduler.max_concurrent || old(self).scheduler.spec_depth() == 0)
                },
                Some(e) => {
                    let k = e.priority.spec_rank() as int;
                    &&& old(self).scheduler.executing < old(self).scheduler.max_concurrent
                    &&& final(self).scheduler.executing == old(self).scheduler.executing + 1
                    &&& old(self).scheduler.queue_at(k).len() > 0
                    &&& e == old(self).scheduler.queue_at(k)[0]
                    &&& forall|j: int| k < j < 4 ==> old(self).scheduler.queue_at(j).len() == 0
                    &&& final(self).scheduler.queue_at(k) == old(self).scheduler.queue_at(
                        k,
                    ).drop_first()
                    &&& forall|j: int| 0 <= j < 4 && j != k ==> final(self).scheduler.queue_at(j)
                        == old(self).scheduler.queue_at(j)
                },
            },
    {
        self.scheduler.dispatch_next()
    }

    /// Re-admission gate for one transport attempt (every attempt, the first
    /// included): the token bucket first, then the target service's circuit
    /// breaker. Succeeds exactly when a token is available and the breaker
    /// lets the request through (a service not yet tracked starts Closed and
    /// always passes). On success the attempt counts as sent; failing the
    /// bucket counts as throttled; a fast-failing breaker counts as
    /// circuit-broken and reports when to retry.
    pub fn begin_attempt(&mut self, service: &str, now_ms: u64) -> (r: Result<(), ApiError>)
        requires
            old(self).wf(),
        ensures
            final(self).wf(),
            final(self).config == old(self).config,
            final(self).scheduler == old(self).scheduler,
            final(self).paused == old(self).paused,
            final(self).health == old(self).health,
            ({
                let cfg = old(self).config.circuit_breaker_config;
                let refilled = spec_refill(
                    old(self).bucket.tokens_micro as int,
                    spec_elapsed(old(self).bucket.last_refill_ms as int, now_ms as int),
                    old(self).bucket.rate_per_second as int,
                    old(self).bucket.multiplier_permille as int,
                    old(self).bucket.spec_cap_micro(),
                );
                let admitted = refilled >= TOKEN_MICRO;
                &&& !admitted ==> {
                    &&& (r matches Err(e) && e is RateLimitExceeded)
                    &&& final(self).breakers == old(self).breakers
                    &&& final(self).stats == (StatsAggregator {
                        requests_throttled: final(self).stats.requests_throttled,
                        ..old(self).stats
                    })
                    &&& final(self).stats.requests_throttled == if old(self).stats.requests_throttled == u64::MAX {
                        u64::MAX as int
                    } else {
                        old(self).stats.requests_throttled + 1
                    }
                }
                &&& admitted ==> {
                    // the tracked record (fresh ones are Closed) decides
                    &&& old(self).breakers.spec_has(service@) ==> exists|idx: int|
                        {
                            &&& 0 <= idx < old(self).breakers.records@.len()
                            &&& (#[trigger] old(self).breakers.records@[idx]).service_name@
                                == service@
                            &&& (r is Ok <==> spec_gate_allows(
                                old(self).breakers.records@[idx],
                                cfg,
                                now_ms,
                            ))
                            &&& final(self).breakers.records@ =~= old(self).breakers.records@.update(
                                idx,
                                spec_after_check(old(self).breakers.records@[idx], cfg, now_ms),
                            )
                        }
                    &&& !old(self).breakers.spec_has(service@) ==> {
                        // a service seen for the first time starts Closed with
                        // zero counters and passes
                        &&& r is Ok
                        &&& final(self).breakers.records@.len() == old(
                            self,
                        ).breakers.records@.len() + 1
                        &&& final(self).breakers.records@.drop_last() =~= old(
                            self,
                        ).breakers.records@
                        &&& final(self).breakers.records@.last().service_name@ == service@
                        &&& final(self).breakers.records@.last().state == CircuitState::Closed
                        &&& final(self).breakers.records@.last().consecutive_failures == 0
                        &&& final(self).breakers.records@.last().consecutive_successes == 0
                        &&& final(self).breakers.records@.last().half_open_trials == 0
                        &&& final(self).breakers.records@.last().last_transition_ms == now_ms
                    }
                    &&& r is Ok ==> {
                        &&& final(self).stats == (StatsAggregator {
                            requests_sent: final(self).stats.requests_sent,
                            ..old(self).stats
                        })
                        &&& final(self).stats.requests_sent == if old(self).stats.requests_sent == u64::MAX {
                            u64::MAX as int
                        } else {
                            old(self).stats.requests_sent + 1
                        }
                    }
                    &&& r matches Err(e) ==> {
                        &&& e is CircuitBreakerOpen
                        &&& final(self).stats == (StatsAggregator {
                            requests_circuit_broken: final(self).stats.requests_circuit_broken,
                            ..old(self).stats
                        })
                        &&& final(self).stats.requests_circuit_broken == if old(self).stats.requests_circuit_broken == u64::MAX {
                            u64::MAX as int
                        } else {
                            old(self).stats.requests_circuit_broken + 1
                        }
                    }
                }
            }),
    {
        if !self.bucket.try_acquire(now_ms) {
            self.stats.requests_throttled = crate::stats::sat_inc(self.stats.requests_throttled);
            return Err(ApiError::RateLimitExceeded(String::from_str("rate limit exceeded")));
        }
        let cfg = self.config.circuit_breaker_config;
        let ghost pre_breakers: CircuitBreakerRegistry = self.breakers;
        let idx = self.breakers.ensure_record(service, now_ms, &cfg);
        let decision = self.breakers.check_at(idx, &cfg, now_ms);
        proof {
            if !pre_breakers.spec_has(service@) {
                assert(self.breakers.records@ =~= pre_breakers.records@.push(
                    self.breakers.records@.last(),
                ));
            }
        }
        match decision {
            GateDecision::Allow | GateDecision::AllowTrial => {
                self.stats.requests_sent = crate::stats::sat_inc(self.stats.requests_sent);
                Ok(())
            },
            GateDecision::FastFail { retry_after_ms } => {
                self.stats.requests_circuit_broken = crate::stats::sat_inc(
                    self.stats.requests_circuit_broken,
                );
                Err(
                    ApiError::CircuitBreakerOpen {
                        service_name: service.to_owned(),
                        retry_after_ms,
                    },
                )
            },
        }
    }

    /// Records a successful attempt: the service's breaker takes a success
    /// and the latency feeds the statistics.
    pub fn on_attempt_success(&mut self, service: &str, latency_ms: u64, now_ms: u64)
        requires
            old(self).wf(),
        ensures
            final(self).wf(),
            final(self).config == old(self).config,
            final(self).scheduler == old(self).scheduler,
            final(self).bucket == old(self).bucket,
            final(self).paused == old(self).paused,
            final(self).health == old(self).health,
            final(self).stats.requests_succeeded == if old(self).stats.requests_succeeded
                == u64::MAX {
                u64::MAX as int
            } else {
                old(self).stats.requests_succeeded + 1
            },
            // the other counters stay; only the latency estimator moves too
            final(self).stats == (StatsAggregator {
                requests_succeeded: final(self).stats.requests_succeeded,
                latency_count: final(self).stats.latency_count,
                average_ms: final(self).stats.average_ms,
                max_ms: final(self).stats.max_ms,
                samples: final(self).stats.samples,
                ..old(self).stats
            }),
            final(self).stats.latency_count == if old(self).stats.latency_count == u64::MAX {
                u64::MAX as int
            } else {
                old(self).stats.latency_count + 1
            },
            old(self).stats.latency_count < u64::MAX ==> final(self).stats.average_ms == (
            old(self).stats.average_ms * old(self).stats.latency_count + latency_ms) / (
            old(self).stats.latency_count + 1),
            final(self).stats.max_ms == if latency_ms > old(self).stats.max_ms {
                latency_ms as int
            } else {
                old(self).stats.max_ms as int
            },
            old(self).breakers.spec_has(service@) ==> exists|idx: int|
                {
                    &&& 0 <= idx < old(self).breakers.records@.len()
                    &&& (#[trigger] old(self).breakers.records@[idx]).service_name@ == service@
                    &&& final(self).breakers.records@ =~= old(self).breakers.records@.update(
                        idx,
                        spec_after_success(
                            old(self).breakers.records@[idx],
                            old(self).config.circuit_breaker_config,
                            now_ms,
                        ),
                    )
                },
    {
        let cfg = self.config.circuit_breaker_config;
        let idx = self.breakers.ensure_record(service, now_ms, &cfg);
        self.breakers.success_at(idx, &cfg, now_ms);
        self.stats.requests_succeeded = crate::stats::sat_inc(self.stats.requests_succeeded);
        self.stats.record_latency(latency_ms);
    }

    /// Records a failed attempt and decides what happens next.
    ///
    /// Failures that represent a downstream outcome (network, timeout,
    /// remote-reported) feed the service's breaker; local fast-fails do not.
    /// Retry policy is read from `retry_config`, the snapshot the request was
    /// admitted under, so in-flight work keeps the configuration it started
    /// with across configuration swaps. The failure is retried only if it is
    /// retryable, fewer than `max_retries` retries are used, the deadline has
    /// not passed, and the drawn backoff delay ends before the deadline —
    /// then the retry counts in the statistics and the delay obeys the
    /// backoff window. Otherwise the failure is final: when the deadline
    /// decided (it passed, or waiting out the drawn backoff would cross it —
    /// an expired deadline always beats a pending retry), the decision says
    /// so and the outcome counts as a timeout; otherwise the last failure
    /// surfaces and counts as failed.
    pub fn on_attempt_failure(
        &mut self,
        service: &str,
        error: &ApiError,
        attempt: u32,
        retry_config: &crate::config::RetryConfig,
        deadline_ms: Option<u64>,
        now_ms: u64,
    ) -> (r: RetryDecision)
        requires
            old(self).wf(),
            retry_config.wf(),
        ensures
            final(self).wf(),
            final(self).config == old(self).config,
            final(self).scheduler == old(self).scheduler,
            final(self).bucket == old(self).bucket,
            final(self).paused == old(self).paused,
            final(self).health == old(self).health,
            ({
                let deadline_passed = match deadline_ms {
                    Some(d) => now_ms > d,
                    None => false,
                };
                &&& (deadline_passed ==> r is GiveUpExpired)
                &&& ((!spec_is_retryable(*error) || attempt >= retry_config.max_retries)
                    && !deadline_passed ==> r is GiveUp)
                // the deadline decided: the caller resolves with a timeout
                &&& (r is GiveUpExpired ==> {
                    &&& deadline_ms is Some
                    &&& final(self).stats == (StatsAggregator {
                        requests_timeout: final(self).stats.requests_timeout,
                        ..old(self).stats
                    })
                    &&& final(self).stats.requests_timeout == if old(self).stats.requests_timeout == u64::MAX {
                        u64::MAX as int
                    } else {
                        old(self).stats.requests_timeout + 1
                    }
                })
                // the retry budget or the failure's kind decided: the last
                // failure surfaces unchanged
                &&& (r is GiveUp ==> {
                    &&& !deadline_passed
                    &&& (!spec_is_retryable(*error) || attempt >= retry_config.max_retries)
                    &&& final(self).stats == (StatsAggregator {
                        requests_failed: final(self).stats.requests_failed,
                        ..old(self).stats
                    })
                    &&& final(self).stats.requests_failed == if old(self).stats.requests_failed == u64::MAX {
                        u64::MAX as int
                    } else {
                        old(self).stats.requests_failed + 1
                    }
                })
                &&& (r matches RetryDecision::RetryAfter(d) ==> {
                    let base = crate::retry::spec_backoff_base(*retry_config, attempt as nat);
                    let jitter = retry_config.jitter_factor_permille as int;
                    &&& spec_is_retryable(*error)
                    &&& attempt < retry_config.max_retries
                    &&& !deadline_passed
                    &&& (deadline_ms matches Some(dl) ==> now_ms + d <= dl)
                    &&& base * (2000 - jitter) / 2000 <= d
                    &&& d <= base * (2000 - jitter) / 2000 + base * jitter / 1000
                    &&& final(self).stats == (StatsAggregator {
                        requests_retried: final(self).stats.requests_retried,
                        ..old(self).stats
                    })
                    &&& final(self).stats.requests_retried == if old(self).stats.requests_retried == u64::MAX {
                        u64::MAX as int
                    } else {
                        old(self).stats.requests_retried + 1
                    }
                })
            }),
            spec_is_retryable(*error) && old(self).breakers.spec_has(service@) ==> exists|
                idx: int,
            |
                {
                    &&& 0 <= idx < old(self).breakers.records@.len()
                    &&& (#[trigger] old(self).breakers.records@[idx]).service_name@ == service@
                    &&& final(self).breakers.records@ =~= old(self).breakers.records@.update(
                        idx,
                        spec_after_failure(
                            old(self).breakers.records@[idx],
                            old(self).config.circuit_breaker_config,
                            now_ms,
                        ),
                    )
                },
            !spec_is_retryable(*error) ==> final(self).breakers == old(self).breakers,
    {
        if crate::retry::is_retryable(error) {
            let cfg = self.config.circuit_breaker_config;
            let idx = self.breakers.ensure_record(service, now_ms, &cfg);
            self.breakers.failure_at(idx, &cfg, now_ms);
        }
        let deadline_passed: bool = match deadline_ms {
            Some(d) => now_ms > d,
            None => false,
        };
        if deadline_passed {
            // a missed deadline is its own terminal outcome category
            self.stats.requests_timeout = crate::stats::sat_inc(self.stats.requests_timeout);
            return RetryDecision::GiveUpExpired;
        }
        let decision = next_retry_decision(error, attempt, retry_config);
        match decision {
            RetryDecision::RetryAfter(d) => {
                let overshoots: bool = match deadline_ms {
                    Some(dl) => d > dl - now_ms,
                    None => false,
                };
                if overshoots {
                    // waiting out the backoff would outlive the deadline:
                    // the deadline wins over the pending retry
                    self.stats.requests_timeout = crate::stats::sat_inc(
                        self.stats.requests_timeout,
                    );
                    RetryDecision::GiveUpExpired
                } else {
                    self.stats.requests_retried = crate::stats::sat_inc(
                        self.stats.requests_retried,
                    );
                    RetryDecision::RetryAfter(d)
                }
            },
            RetryDecision::GiveUp | RetryDecision::GiveUpExpired => {
                self.stats.requests_failed = crate::stats::sat_inc(self.stats.requests_failed);
                RetryDecision::GiveUp
            },
        }
    }

    /// Marks one dispatched request resolved, freeing its execution slot.
    pub fn complete_request(&mut self)
        requires
            old(self).wf(),
            old(self).scheduler.executing >= 1,
        ensures
            final(self).wf(),
            final(self).scheduler.executing == old(self).scheduler.executing - 1,
            forall|k: int| 0 <= k < 4 ==> final(self).scheduler.queue_at(k) == old(self).scheduler.queue_at(k),
            final(self).config == old(self).config,
            final(self).bucket == old(self).bucket,
            final(self).breakers == old(self).breakers,
            final(self).stats == old(self).stats,
            final(self).paused == old(self).paused,
            final(self).health == old(self).health,
    {
        self.scheduler.complete_one();
    }

    /// Cancels a still-queued request; an in-flight call is never
    /// interrupted, so a dispatched or unknown id returns false. A cancelled
    /// request never executes: it leaves the queues at once.
    pub fn cancel_request(&mut self, correlation_id: &str) -> (r: bool)
        requires
            old(self).wf(),
        ensures
            final(self).wf(),
            r == old(self).scheduler.spec_queued(correlation_id@),
            !r ==> *final(self) == *old(self),
            final(self).scheduler.spec_depth() == old(self).scheduler.spec_depth() - if r {
                1int
            } else {
                0int
            },
            final(self).scheduler.executing == old(self).scheduler.executing,
            final(self).config == old(self).config,
            final(self).bucket == old(self).bucket,
            final(self).breakers == old(self).breakers,
            final(self).stats == old(self).stats,
    {
        self.scheduler.cancel(correlation_id)
    }

    /// Swaps in a new configuration as one atomic step; queued and in-flight
    /// work continues unaffected: the queues, the executing count, and every
    /// breaker's state survive, and a request in flight keeps the retry
    /// configuration it was admitted under (its driver passes that snapshot
    /// to `on_attempt_failure`). The rate limiter takes the new rate and
    /// burst (tokens capped to the new burst); breaker counters are clamped
    /// below the new thresholds, so lowered thresholds take effect from the
    /// next event. Rejects invalid configurations unchanged.
    pub fn update_config(&mut self, config: ClientConfig) -> (r: Result<(), ClientError>)
        requires
            old(self).wf(),
        ensures
            final(self).wf(),
            r is Ok <==> config.wf(),
            r is Err ==> *final(self) == *old(self),
            r is Ok ==> {
                &&& final(self).config == config
                &&& final(self).bucket.rate_per_second == config.max_requests_per_second
                &&& final(self).bucket.burst == config.max_burst_size
                &&& final(self).bucket.multiplier_permille == old(self).bucket.multiplier_permille
                &&& final(self).bucket.tokens_micro == if old(self).bucket.tokens_micro
                    > config.max_burst_size * 1_000_000 {
                    config.max_burst_size * 1_000_000
                } else {
                    old(self).bucket.tokens_micro as int
                }
                &&& final(self).scheduler.max_concurrent == config.max_concurrent_requests
                &&& final(self).scheduler.queue_capacity == config.queue_size_per_priority
                // queued and in-flight work continues unaffected
                &&& forall|k: int| 0 <= k < 4 ==> final(self).scheduler.queue_at(k) == old(self).scheduler.queue_at(k)
                &&& final(self).scheduler.executing == old(self).scheduler.executing
                &&& final(self).scheduler.next_seq == old(self).scheduler.next_seq
                // breaker states, names, and timers survive; counters are
                // clamped below the new thresholds
                &&& final(self).breakers.records@.len() == old(self).breakers.records@.len()
                &&& forall|k: int|
                    0 <= k < final(self).breakers.records@.len() ==> {
                        &&& (#[trigger] final(self).breakers.records@[k]).service_name@ == old(self).breakers.records@[k].service_name@
                        &&& final(self).breakers.records@[k].state == old(self).breakers.records@[k].state
                        &&& final(self).breakers.records@[k].last_transition_ms == old(self).breakers.records@[k].last_transition_ms
                    }
                &&& final(self).paused == old(self).paused
                &&& final(self).health == old(self).health
                &&& final(self).stats == old(self).stats
            },
    {
        if !config.is_valid() {
            return Err(ClientError::ConfigError(String::from_str("invalid configuration")));
        }
        // work already in the execute phase keeps running: when the ceiling
        // drops below it, dispatch simply stays closed until enough resolves
        self.scheduler.max_concurrent = config.max_concurrent_requests;
        self.scheduler.queue_capacity = config.queue_size_per_priority;
        self.bucket.rate_per_second = config.max_requests_per_second;
        self.bucket.burst = config.max_burst_size;
        let cap: u64 = config.max_burst_size as u64 * TOKEN_MICRO;
        if self.bucket.tokens_micro > cap {
            self.bucket.tokens_micro = cap;
        }
        let new_cb = config.circuit_breaker_config;
        self.breakers.clamp_to_config(&new_cb);
        self.config = config;
        Ok(())
    }

    /// Stops admitting new requests; queued and in-flight work is unaffected
    /// here (a caller that drains waits for it to resolve before returning).
    pub fn pause(&mut self, drain: bool) -> (r: Result<(), ClientError>)
        requires
            old(self).wf(),
        ensures
            final(self).wf(),
            r is Ok,
            *final(self) == (BookingApiClient { paused: true, ..*old(self) }),
    {
        let _ = drain;
        self.paused = true;
        Ok(())
    }

    /// Re-enables admission.
    pub fn resume(&mut self) -> (r: Result<(), ClientError>)
        requires
            old(self).wf(),
        ensures
            final(self).wf(),
            r is Ok,
            *final(self) == (BookingApiClient { paused: false, ..*old(self) }),
    {
        self.paused = false;
        Ok(())
    }

    /// Forces every tracked circuit breaker to Closed with zero counters and
    /// returns how many were not already Closed; immediately afterwards every
    /// tracked service accepts requests again.
    pub fn reset_circuit_breakers(&mut self, now_ms: u64) -> (n: usize)
        requires
            old(self).wf(),
        ensures
            final(self).wf(),
            n == count_not_closed(old(self).breakers.records@),
            final(self).breakers.records@.len() == old(self).breakers.records@.len(),
            forall|k: int|
                0 <= k < final(self).breakers.records@.len() ==> {
                    &&& (#[trigger] final(self).breakers.records@[k]).state
                        == CircuitState::Closed
                    &&& final(self).breakers.records@[k].consecutive_failures == 0
                    &&& final(self).breakers.records@[k].consecutive_successes == 0
                    &&& final(self).breakers.records@[k].half_open_trials == 0
                    &&& final(self).breakers.records@[k].service_name@ == old(self).breakers.records@[k].service_name@
                },
            final(self).config == old(self).config,
            final(self).bucket == old(self).bucket,
            final(self).scheduler == old(self).scheduler,
            final(self).stats == old(self).stats,
            final(self).paused == old(self).paused,
            final(self).health == old(self).health,
    {
        let cfg = self.config.circuit_breaker_config;
        self.breakers.reset_all(&cfg, now_ms)
    }

    /// Computes the jittered backoff delay for a retry attempt; the result
    /// lies within the attempt's backoff window.
    pub fn calculate_backoff(retry_attempt: u32, config: &crate::config::RetryConfig) -> (r: u64)
        requires
            config.wf(),
        ensures
            ({
                let base = crate::retry::spec_backoff_base(*config, retry_attempt as nat);
                let jitter = config.jitter_factor_permille as int;
                base * (2000 - jitter) / 2000 <= r <= base * (2000 - jitter) / 2000 + base
                    * jitter / 1000
            }),
    {
        crate::retry::calculate_backoff(retry_attempt, config)
    }

    /// An instantaneous statistics snapshot; reading mutates nothing.
    pub fn stats(&self) -> (r: ClientStats)
        requires
            self.wf(),
        ensures
            r.requests_sent == self.stats.requests_sent,
            r.requests_succeeded == self.stats.requests_succeeded,
            r.requests_failed == self.stats.requests_failed,
            r.requests_throttled == self.stats.requests_throttled,
            r.requests_retried == self.stats.requests_retried,
            r.requests_preempted == self.stats.requests_preempted,
            r.requests_timeout == self.stats.requests_timeout,
            r.requests_circuit_broken == self.stats.requests_circuit_broken,
            r.average_response_time_ms == self.stats.average_ms,
            r.max_response_time_ms == self.stats.max_ms,
            // nearest-rank percentiles over the latency reservoir
            self.stats.samples@.len() == 0 ==> r.p95_response_time_ms == 0
                && r.p99_response_time_ms == 0,
            self.stats.samples@.len() > 0 ==> exists|s: Seq<u64>|
                {
                    &&& crate::stats::sorted(s)
                    &&& s.to_multiset() == self.stats.samples@.to_multiset()
                    &&& s.len() == self.stats.samples@.len()
                    &&& r.p95_response_time_ms == s[(95 * self.stats.samples@.len() + 99) as int
                        / 100 - 1]
                },
            self.stats.samples@.len() > 0 ==> exists|s: Seq<u64>|
                {
                    &&& crate::stats::sorted(s)
                    &&& s.to_multiset() == self.stats.samples@.to_multiset()
                    &&& s.len() == self.stats.samples@.len()
                    &&& r.p99_response_time_ms == s[(99 * self.stats.samples@.len() + 99) as int
                        / 100 - 1]
                },
            r.active_requests == self.scheduler.executing,
            r.queue_depth == self.scheduler.spec_depth(),
            r.circuit_breaker_open == (count_not_closed(self.breakers.records@) > 0),
            r.current_rate_limit == self.config.max_requests_per_second,
            r.adaptive_rate_limit_multiplier_permille
                == self.health.spec_multiplier_permille(),
    {
        let open = self.any_breaker_not_closed();
        ClientStats {
            requests_sent: self.stats.requests_sent,
            requests_succeeded: self.stats.requests_succeeded,
            requests_failed: self.stats.requests_failed,
            requests_throttled: self.stats.requests_throttled,
            requests_retried: self.stats.requests_retried,
            requests_preempted: self.stats.requests_preempted,
            requests_timeout: self.stats.requests_timeout,
            requests_circuit_broken: self.stats.requests_circuit_broken,
            average_response_time_ms: self.stats.average_ms,
            p95_response_time_ms: self.stats.p95_ms(),
            p99_response_time_ms: self.stats.p99_ms(),
            max_response_time_ms: self.stats.max_ms,
            active_requests: self.scheduler.executing as u64,
            queue_depth: self.scheduler.depth() as u64,
            circuit_breaker_open: open,
            current_rate_limit: self.config.max_requests_per_second,
            adaptive_rate_limit_multiplier_permille: self.health.multiplier_permille(),
        }
    }

    /// Whether any tracked breaker is not Closed.
    fn any_breaker_not_closed(&self) -> (r: bool)
        ensures
            r == (count_not_closed(self.breakers.records@) > 0),
    {
        let n = self.breakers.records.len();
        let mut k: usize = 0;
        while k < n
            invariant
                n == self.breakers.records@.len(),
                0 <= k <= n,
                count_not_closed(self.breakers.records@.subrange(0, k as int)) == 0,
            decreases n - k,
        {
            let is_open = {
                let st = self.breakers.records[k].state;
                !(st == CircuitState::Closed)
            };
            proof {
                assert(self.breakers.records@.subrange(0, k + 1).drop_last()
                    =~= self.breakers.records@.subrange(0, k as int));
                assert(self.breakers.records@.subrange(0, k + 1).last()
                    == self.breakers.records@[k as int]);
            }
            if is_open {
                proof {
                    lemma_count_not_closed_pos(self.breakers.records@, k as int);
                }
                return true;
            }
            k = k + 1;
        }
        proof {
            assert(self.breakers.records@.subrange(0, n as int) =~= self.breakers.records@);
        }
        false
    }
}

} // verus!
