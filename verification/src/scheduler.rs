//! Bounded per-priority FIFO queues with cross-priority preemption and a
//! concurrency ceiling on dispatched work.

use vstd::prelude::*;
use vstd::string::StringExecFns;
use crate::errors::ApiError;
use crate::types::RequestPriority;

verus! {

/// A queued request: its caller waits until dispatch, preemption,
/// cancellation, or deadline expiry.
pub struct QueueEntry {
    pub correlation_id: String,
    pub priority: RequestPriority,
    pub seq: u64,
    pub enqueued_at_ms: u64,
    pub deadline_ms: Option<u64>,
    pub is_booking: bool,
}

/// The priority a request is scheduled at: bookings are raised to at least
/// High so that confirmed business never starves behind speculative searches.
pub open spec fn spec_effective_priority(p: RequestPriority, is_booking: bool) -> RequestPriority {
    if is_booking && p.spec_rank() < RequestPriority::High.spec_rank() {
        RequestPriority::High
    } else {
        p
    }
}

pub fn effective_priority(p: RequestPriority, is_booking: bool) -> (r: RequestPriority)
    ensures
        r == spec_effective_priority(p, is_booking),
{
    if is_booking && p.rank() < 2 {
        RequestPriority::High
    } else {
        p
    }
}

/// Whether an entry's deadline has passed at `now_ms`.
pub open spec fn spec_expired(e: QueueEntry, now_ms: u64) -> bool {
    match e.deadline_ms {
        Some(d) => now_ms > d,
        None => false,
    }
}

/// The predicate an entry must meet to stay queued at `now_ms`.
pub open spec fn spec_keep_pred(now_ms: u64) -> spec_fn(QueueEntry) -> bool {
    |e: QueueEntry| !spec_expired(e, now_ms)
}

/// The predicate selecting the entries whose deadline has passed.
pub open spec fn spec_drop_pred(now_ms: u64) -> spec_fn(QueueEntry) -> bool {
    |e: QueueEntry| spec_expired(e, now_ms)
}

/// The correlation ids of the entries of `q` whose deadline has passed, in
/// queue order.
pub open spec fn spec_expired_ids(q: Seq<QueueEntry>, now_ms: u64) -> Seq<String> {
    q.filter(spec_drop_pred(now_ms)).map_values(|e: QueueEntry| e.correlation_id)
}

/// Four bounded FIFO queues (one per priority) plus the count of requests in
/// the execute phase.
pub struct PriorityScheduler {
    pub low: Vec<QueueEntry>,
    pub medium: Vec<QueueEntry>,
    pub high: Vec<QueueEntry>,
    pub critical: Vec<QueueEntry>,
    pub next_seq: u64,
    pub executing: u32,
    pub queue_capacity: usize,
    pub max_concurrent: u32,
}

/// Every element of a filtered sequence is an element of the original.
pub proof fn lemma_filter_member<A>(s: Seq<A>, pred: spec_fn(A) -> bool, i: int)
    requires
        0 <= i < s.filter(pred).len(),
    ensures
        exists|j: int| 0 <= j < s.len() && s[j] == s.filter(pred)[i],
    decreases s.len(),
{
    reveal(Seq::filter);
    if s.len() > 0 {
        let dl = s.drop_last();
        if pred(s.last()) && i == s.filter(pred).len() - 1 {
            assert(s[s.len() - 1] == s.filter(pred)[i]);
        } else {
            lemma_filter_member(dl, pred, i);
            let j = choose|j: int| 0 <= j < dl.len() && dl[j] == dl.filter(pred)[i];
            assert(s[j] == s.filter(pred)[i]);
        }
    }
}

/// Filtering a well-formed queue leaves a well-formed queue: it only drops
/// entries, keeping rank, relative order, and sequence-stamp bounds.
proof fn lemma_filter_queue_wf(
    q: Seq<QueueEntry>,
    rank: int,
    next_seq: int,
    pred: spec_fn(QueueEntry) -> bool,
)
    requires
        queue_wf(q, rank, next_seq),
    ensures
        queue_wf(q.filter(pred), rank, next_seq),
        q.filter(pred).len() <= q.len(),
    decreases q.len(),
{
    reveal(Seq::filter);
    if q.len() > 0 {
        let dl = q.drop_last();
        assert(queue_wf(dl, rank, next_seq));
        lemma_filter_queue_wf(dl, rank, next_seq, pred);
        let f = dl.filter(pred);
        if pred(q.last()) {
            assert forall|i: int| 0 <= i < f.len() implies f[i].seq < q.last().seq by {
                lemma_filter_member(dl, pred, i);
            }
            assert(q.filter(pred) == f.push(q.last()));
        }
    }
}

/// One queue is well formed at rank `rank`: all entries of that rank, FIFO by
/// strictly increasing sequence stamps below `next_seq`. The length bound is
/// absolute (enqueue enforces the configured capacity, which may be lowered
/// at run time below a queue's current length).
pub open spec fn queue_wf(q: Seq<QueueEntry>, rank: int, next_seq: int) -> bool {
    &&& q.len() <= 1_000_000_000
    &&& forall|i: int| 0 <= i < q.len() ==> (#[trigger] q[i]).priority.spec_rank() == rank
    &&& forall|i: int, j: int| 0 <= i < j < q.len() ==> q[i].seq < q[j].seq
    &&& forall|i: int| 0 <= i < q.len() ==> (#[trigger] q[i]).seq < next_seq
}

impl PriorityScheduler {
    /// The queue at a given priority rank.
    pub open spec fn queue_at(self, rank: int) -> Seq<QueueEntry> {
        if rank == 0 {
            self.low@
        } else if rank == 1 {
            self.medium@
        } else if rank == 2 {
            self.high@
        } else {
            self.critical@
        }
    }

    pub open spec fn wf(self) -> bool {
        &&& queue_wf(self.low@, 0, self.next_seq as int)
        &&& queue_wf(self.medium@, 1, self.next_seq as int)
        &&& queue_wf(self.high@, 2, self.next_seq as int)
        &&& queue_wf(self.critical@, 3, self.next_seq as int)
        &&& self.max_concurrent >= 1
        &&& 1 <= self.queue_capacity <= 1_000_000_000
    }

    /// Total number of queued entries.
    pub open spec fn spec_depth(self) -> int {
        self.low@.len() + self.medium@.len() + self.high@.len() + self.critical@.len() as int
    }

    /// Whether any queue strictly below rank `k` holds an entry.
    pub open spec fn spec_has_lower_queued(self, k: int) -> bool {
        exists|j: int| 0 <= j < k && #[trigger] self.queue_at(j).len() > 0
    }

    /// The smallest rank below `k` whose queue is nonempty (the preemption
    /// victim's queue).
    pub open spec fn spec_lowest_nonempty_below(self, k: int) -> int {
        if self.low@.len() > 0 && k > 0 {
            0
        } else if self.medium@.len() > 0 && k > 1 {
            1
        } else {
            2
        }
    }

    /// Whether some queued entry carries `id`.
    pub open spec fn spec_queued(self, id: Seq<char>) -> bool {
        exists|r: int, i: int|
            0 <= r < 4 && 0 <= i < self.queue_at(r).len() && (#[trigger] self.queue_at(
                r,
            )[i]).correlation_id@ == id
    }

    pub fn new(queue_capacity: usize, max_concurrent: u32) -> (r: PriorityScheduler)
        requires
            1 <= queue_capacity <= 1_000_000_000,
            max_concurrent >= 1,
        ensures
            r.wf(),
            r.spec_depth() == 0,
            r.executing == 0,
            r.queue_capacity == queue_capacity,
            r.max_concurrent == max_concurrent,
            r.next_seq == 0,
    {
        PriorityScheduler {
            low: Vec::new(),
            medium: Vec::new(),
            high: Vec::new(),
            critical: Vec::new(),
            next_seq: 0,
            executing: 0,
            queue_capacity,
            max_concurrent,
        }
    }

    /// Enqueues a request at its effective priority.
    ///
    /// Fails with `QueueFull` when that priority's queue is at capacity.
    /// Otherwise, when the concurrency ceiling is reached and a strictly
    /// lower-priority entry is queued, the oldest entry of the lowest such
    /// priority is removed first and its id returned so its caller can be
    /// resolved with `RequestPreempted`; executing work is never preempted.
    pub fn enqueue(
        &mut self,
        correlation_id: String,
        priority: RequestPriority,
        is_booking: bool,
        deadline_ms: Option<u64>,
        now_ms: u64,
    ) -> (r: Result<Option<String>, ApiError>)
        requires
            old(self).wf(),
        ensures
            final(self).wf(),
            final(self).queue_capacity == old(self).queue_capacity,
            final(self).max_concurrent == old(self).max_concurrent,
            final(self).executing == old(self).executing,
            ({
                let k = spec_effective_priority(priority, is_booking).spec_rank() as int;
                match r {
                    Err(e) => {
                        &&& (e == ApiError::QueueFull || old(self).next_seq == u64::MAX)
                        &&& e matches ApiError::QueueFull ==> old(self).queue_at(k).len()
                            >= old(self).queue_capacity
                        &&& *final(self) == *old(self)
                    },
                    Ok(preempted) => {
                        let preempting = old(self).executing >= old(self).max_concurrent
                            && old(self).spec_has_lower_queued(k);
                        let v = old(self).spec_lowest_nonempty_below(k);
                        let entry = (QueueEntry {
                            correlation_id: correlation_id,
                            priority: spec_effective_priority(priority, is_booking),
                            seq: old(self).next_seq,
                            enqueued_at_ms: now_ms,
                            deadline_ms: deadline_ms,
                            is_booking: is_booking,
                        });
                        &&& old(self).queue_at(k).len() < old(self).queue_capacity
                        &&& old(self).next_seq < u64::MAX
                        &&& final(self).next_seq == old(self).next_seq + 1
                        &&& final(self).spec_depth() == old(self).spec_depth() + if preempting {
                            0int
                        } else {
                            1int
                        }
                        &&& if preempting {
                            // the oldest entry of the lowest queued priority left
                            &&& preempted == Some(old(self).queue_at(v)[0].correlation_id)
                            &&& final(self).queue_at(v) == old(self).queue_at(v).drop_first()
                            &&& final(self).queue_at(k) == old(self).queue_at(k).push(entry)
                            &&& forall|j: int| 0 <= j < 4 && j != k && j != v
                                ==> final(self).queue_at(j) == old(self).queue_at(j)
                        } else {
                            &&& preempted == None::<String>
                            &&& final(self).queue_at(k) == old(self).queue_at(k).push(entry)
                            &&& forall|j: int| 0 <= j < 4 && j != k
                                ==> final(self).queue_at(j) == old(self).queue_at(j)
                        }
                    },
                }
            }),
    {
        if self.next_seq == u64::MAX {
            return Err(ApiError::Other(String::from_str("sequence stamps exhausted")));
        }
        let eff = effective_priority(priority, is_booking);
        let k: u8 = eff.rank();
        let cur_len: usize = if k == 0 {
            self.low.len()
        } else if k == 1 {
            self.medium.len()
        } else if k == 2 {
            self.high.len()
        } else {
            self.critical.len()
        };
        if cur_len >= self.queue_capacity {
            return Err(ApiError::QueueFull);
        }
        let mut preempted: Option<String> = None;
        if self.executing >= self.max_concurrent {
            if k > 0 && self.low.len() > 0 {
                let victim = self.low.remove(0);
                preempted = Some(victim.correlation_id);
            } else if k > 1 && self.medium.len() > 0 {
                let victim = self.medium.remove(0);
                preempted = Some(victim.correlation_id);
            } else if k > 2 && self.high.len() > 0 {
                let victim = self.high.remove(0);
                preempted = Some(victim.correlation_id);
            }
        }
        let entry = QueueEntry {
            correlation_id,
            priority: eff,
            seq: self.next_seq,
            enqueued_at_ms: now_ms,
            deadline_ms,
            is_booking,
        };
        self.next_seq = self.next_seq + 1;
        if k == 0 {
            self.low.push(entry);
        } else if k == 1 {
            self.medium.push(entry);
        } else if k == 2 {
            self.high.push(entry);
        } else {
            self.critical.push(entry);
        }
        Ok(preempted)
    }

    /// Dispatches the next request: the oldest entry of the highest nonempty
    /// priority, if the concurrency ceiling allows; the entry moves to the
    /// execute phase.
    pub fn dispatch_next(&mut self) -> (r: Option<QueueEntry>)
        requires
            old(self).wf(),
        ensures
            final(self).wf(),
            final(self).queue_capacity == old(self).queue_capacity,
            final(self).max_concurrent == old(self).max_concurrent,
            final(self).next_seq == old(self).next_seq,
            match r {
                None => {
                    &&& *final(self) == *old(self)
                    &&& (old(self).executing >= old(self).max_concurrent || old(self).spec_depth()
                        == 0)
                },
                Some(e) => {
                    // the source queue is the highest nonempty one
                    let k = e.priority.spec_rank() as int;
                    &&& old(self).executing < old(self).max_concurrent
                    &&& final(self).executing == old(self).executing + 1
                    &&& old(self).queue_at(k).len() > 0
                    &&& e == old(self).queue_at(k)[0]
                    &&& forall|j: int| k < j < 4 ==> old(self).queue_at(j).len() == 0
                    &&& final(self).queue_at(k) == old(self).queue_at(k).drop_first()
                    &&& forall|j: int| 0 <= j < 4 && j != k ==> final(self).queue_at(j) == old(
                        self,
                    ).queue_at(j)
                },
            },
    {
        if self.executing >= self.max_concurrent {
            return None;
        }
        if self.critical.len() > 0 {
            let e = self.critical.remove(0);
            self.executing = self.executing + 1;
            Some(e)
        } else if self.high.len() > 0 {
            let e = self.high.remove(0);
            self.executing = self.executing + 1;
            Some(e)
        } else if self.medium.len() > 0 {
            let e = self.medium.remove(0);
            self.executing = self.executing + 1;
            Some(e)
        } else if self.low.len() > 0 {
            let e = self.low.remove(0);
            self.executing = self.executing + 1;
            Some(e)
        } else {
            None
        }
    }

    /// Marks one executing request finished, freeing an execution slot.
    pub fn complete_one(&mut self)
        requires
            old(self).wf(),
            old(self).executing >= 1,
        ensures
            final(self).wf(),
            *final(self) == (PriorityScheduler {
                executing: (old(self).executing - 1) as u32,
                ..*old(self)
            }),
    {
        self.executing = self.executing - 1;
    }

    /// Cancels a still-queued request: removes the first queued entry whose
    /// correlation id matches and returns true; returns false when no queued
    /// entry matches (already dispatched, finished, or unknown) — an
    /// in-flight call is never interrupted.
    pub fn cancel(&mut self, correlation_id: &str) -> (r: bool)
        requires
            old(self).wf(),
        ensures
            final(self).wf(),
            final(self).executing == old(self).executing,
            final(self).next_seq == old(self).next_seq,
            final(self).queue_capacity == old(self).queue_capacity,
            final(self).max_concurrent == old(self).max_concurrent,
            r == old(self).spec_queued(correlation_id@),
            !r ==> *final(self) == *old(self),
            r ==> exists|k: int, i: int|
                {
                    &&& 0 <= k < 4
                    &&& 0 <= i < old(self).queue_at(k).len()
                    &&& (#[trigger] old(self).queue_at(k)[i]).correlation_id@ == correlation_id@
                    &&& final(self).queue_at(k) == old(self).queue_at(k).remove(i)
                    &&& forall|j: int| 0 <= j < 4 && j != k ==> final(self).queue_at(j) == old(
                        self,
                    ).queue_at(j)
                },
            // after a successful cancel one matching entry is gone
            final(self).spec_depth() == old(self).spec_depth() - if r {
                1int
            } else {
                0int
            },
    {
        let ghost pre: PriorityScheduler = *self;
        let found_low = Self::find_in_queue(&self.low, correlation_id);
        if let Some(i) = found_low {
            self.low.remove(i);
            proof {
                assert(pre.queue_at(0)[i as int].correlation_id@ == correlation_id@);
                assert(self.queue_at(0) == pre.queue_at(0).remove(i as int));
            }
            return true;
        }
        let found_medium = Self::find_in_queue(&self.medium, correlation_id);
        if let Some(i) = found_medium {
            self.medium.remove(i);
            proof {
                assert(pre.queue_at(1)[i as int].correlation_id@ == correlation_id@);
                assert(self.queue_at(1) == pre.queue_at(1).remove(i as int));
            }
            return true;
        }
        let found_high = Self::find_in_queue(&self.high, correlation_id);
        if let Some(i) = found_high {
            self.high.remove(i);
            proof {
                assert(pre.queue_at(2)[i as int].correlation_id@ == correlation_id@);
                assert(self.queue_at(2) == pre.queue_at(2).remove(i as int));
            }
            return true;
        }
        let found_critical = Self::find_in_queue(&self.critical, correlation_id);
        if let Some(i) = found_critical {
            self.critical.remove(i);
            proof {
                assert(pre.queue_at(3)[i as int].correlation_id@ == correlation_id@);
                assert(self.queue_at(3) == pre.queue_at(3).remove(i as int));
            }
            return true;
        }
        proof {
            assert forall|rk: int, i: int|
                0 <= rk < 4 && 0 <= i < pre.queue_at(rk).len() implies (#[trigger] pre.queue_at(
                rk,
            )[i]).correlation_id@ != correlation_id@ by {
                if rk == 0 {
                    assert(pre.queue_at(0) == pre.low@);
                } else if rk == 1 {
                    assert(pre.queue_at(1) == pre.medium@);
                } else if rk == 2 {
                    assert(pre.queue_at(2) == pre.high@);
                } else {
                    assert(pre.queue_at(3) == pre.critical@);
                }
            }
        }
        false
    }

    /// Finds the first entry in `q` carrying `id`.
    fn find_in_queue(q: &Vec<QueueEntry>, id: &str) -> (r: Option<usize>)
        ensures
            match r {
                Some(i) => 0 <= i < q@.len() && q@[i as int].correlation_id@ == id@,
                None => forall|i: int| 0 <= i < q@.len() ==> (#[trigger] q@[i]).correlation_id@
                    != id@,
            },
    {
        let mut i: usize = 0;
        while i < q.len()
            invariant
                0 <= i <= q@.len(),
                forall|j: int| 0 <= j < i ==> (#[trigger] q@[j]).correlation_id@ != id@,
            decreases q@.len() - i,
        {
            if crate::strutil::str_eq(q[i].correlation_id.as_str(), id) {
                return Some(i);
            }
            i = i + 1;
        }
        None
    }

    /// Removes every queued entry whose deadline has passed, returning their
    /// correlation ids so their callers can be resolved with `Timeout`.
    pub fn remove_expired(&mut self, now_ms: u64) -> (timed_out: Vec<String>)
        requires
            old(self).wf(),
        ensures
            final(self).wf(),
            final(self).executing == old(self).executing,
            final(self).next_seq == old(self).next_seq,
            final(self).queue_capacity == old(self).queue_capacity,
            final(self).max_concurrent == old(self).max_concurrent,
            forall|k: int| 0 <= k < 4 ==> final(self).queue_at(k) == old(self).queue_at(
                k,
            ).filter(spec_keep_pred(now_ms)),
            timed_out@.len() == old(self).spec_depth() - final(self).spec_depth(),
            // exactly the removed entries' ids, lowest priority first
            timed_out@ == spec_expired_ids(old(self).low@, now_ms) + spec_expired_ids(
                old(self).medium@,
                now_ms,
            ) + spec_expired_ids(old(self).high@, now_ms) + spec_expired_ids(
                old(self).critical@,
                now_ms,
            ),
    {
        let ghost pre: PriorityScheduler = *self;
        let mut timed_out: Vec<String> = Vec::new();
        Self::drain_expired(&mut self.low, now_ms, &mut timed_out);
        Self::drain_expired(&mut self.medium, now_ms, &mut timed_out);
        Self::drain_expired(&mut self.high, now_ms, &mut timed_out);
        Self::drain_expired(&mut self.critical, now_ms, &mut timed_out);
        proof {
            let ns = pre.next_seq as int;
            lemma_filter_queue_wf(pre.low@, 0, ns, spec_keep_pred(now_ms));
            lemma_filter_queue_wf(pre.medium@, 1, ns, spec_keep_pred(now_ms));
            lemma_filter_queue_wf(pre.high@, 2, ns, spec_keep_pred(now_ms));
            lemma_filter_queue_wf(pre.critical@, 3, ns, spec_keep_pred(now_ms));
        }
        timed_out
    }

    /// Keeps the unexpired entries of one queue, in order, collecting the
    /// ids of the expired ones.
    fn drain_expired(q: &mut Vec<QueueEntry>, now_ms: u64, out: &mut Vec<String>)
        ensures
            final(q)@ == old(q)@.filter(spec_keep_pred(now_ms)),
            final(out)@.len() == old(out)@.len() + old(q)@.len() - final(q)@.len(),
            final(out)@ == old(out)@ + spec_expired_ids(old(q)@, now_ms),
    {
        let ghost spred = spec_keep_pred(now_ms);
        let ghost dpred = spec_drop_pred(now_ms);
        let mut kept: Vec<QueueEntry> = Vec::new();
        let ghost orig: Seq<QueueEntry> = q@;
        let ghost out_init: Seq<String> = out@;
        let ghost out0: int = out@.len() as int;
        proof {
            reveal(Seq::filter);
            assert(out@ =~= out_init + spec_expired_ids(orig.subrange(0, 0), now_ms));
        }
        let mut i: usize = 0;
        while i < q.len()
            invariant
                spred == spec_keep_pred(now_ms),
                dpred == spec_drop_pred(now_ms),
                0 <= i <= q@.len(),
                q@ == orig,
                kept@ == orig.subrange(0, i as int).filter(spred),
                out@.len() == out0 + i - kept@.len(),
                out0 == out_init.len(),
                out@ == out_init + spec_expired_ids(orig.subrange(0, i as int), now_ms),
                kept@.len() <= i,
            decreases q@.len() - i,
        {
            let ghost pre: Seq<QueueEntry> = orig.subrange(0, i as int);
            let e = &q[i];
            let expired: bool = match e.deadline_ms {
                Some(d) => now_ms > d,
                None => false,
            };
            if expired {
                out.push(e.correlation_id.clone());
            } else {
                let copy = QueueEntry {
                    correlation_id: e.correlation_id.clone(),
                    priority: e.priority,
                    seq: e.seq,
                    enqueued_at_ms: e.enqueued_at_ms,
                    deadline_ms: e.deadline_ms,
                    is_booking: e.is_booking,
                };
                proof {
                    assert(copy == orig[i as int]);
                }
                kept.push(copy);
            }
            proof {
                reveal(Seq::filter);
                let s1 = orig.subrange(0, i + 1);
                assert(s1.drop_last() =~= pre);
                assert(s1.last() == orig[i as int]);
                assert(s1.filter(spred) == if spred(orig[i as int]) {
                    pre.filter(spred).push(orig[i as int])
                } else {
                    pre.filter(spred)
                });
                assert(s1.filter(dpred) == if dpred(orig[i as int]) {
                    pre.filter(dpred).push(orig[i as int])
                } else {
                    pre.filter(dpred)
                });
                assert(expired == spec_expired(orig[i as int], now_ms));
                assert(spred(orig[i as int]) == !spec_expired(orig[i as int], now_ms));
                assert(dpred(orig[i as int]) == spec_expired(orig[i as int], now_ms));
                assert(out@ =~= out_init + spec_expired_ids(s1, now_ms));
            }
            i = i + 1;
        }
        proof {
            assert(orig.subrange(0, orig.len() as int) =~= orig);
            assert(out@ =~= out_init + spec_expired_ids(orig, now_ms));
        }
        *q = kept;
    }

    /// Whether an entry with this correlation id is still queued.
    pub fn is_queued(&self, correlation_id: &str) -> (r: bool)
        ensures
            r == self.spec_queued(correlation_id@),
    {
        if let Some(i) = Self::find_in_queue(&self.low, correlation_id) {
            proof {
                assert(self.queue_at(0)[i as int].correlation_id@ == correlation_id@);
            }
            return true;
        }
        if let Some(i) = Self::find_in_queue(&self.medium, correlation_id) {
            proof {
                assert(self.queue_at(1)[i as int].correlation_id@ == correlation_id@);
            }
            return true;
        }
        if let Some(i) = Self::find_in_queue(&self.high, correlation_id) {
            proof {
                assert(self.queue_at(2)[i as int].correlation_id@ == correlation_id@);
            }
            return true;
        }
        if let Some(i) = Self::find_in_queue(&self.critical, correlation_id) {
            proof {
                assert(self.queue_at(3)[i as int].correlation_id@ == correlation_id@);
            }
            return true;
        }
        proof {
            assert forall|rk: int, i: int|
                0 <= rk < 4 && 0 <= i < self.queue_at(rk).len() implies (#[trigger] self.queue_at(
                rk,
            )[i]).correlation_id@ != correlation_id@ by {
                if rk == 0 {
                    assert(self.queue_at(0) == self.low@);
                } else if rk == 1 {
                    assert(self.queue_at(1) == self.medium@);
                } else if rk == 2 {
                    assert(self.queue_at(2) == self.high@);
                } else {
                    assert(self.queue_at(3) == self.critical@);
                }
            }
        }
        false
    }

    /// The correlation id of the entry `dispatch_next` would hand out: the
    /// oldest entry of the highest nonempty priority.
    pub fn next_in_line(&self) -> (r: Option<String>)
        ensures
            match r {
                Some(id) => exists|k: int|
                    0 <= k < 4 && #[trigger] self.queue_at(k).len() > 0 && (forall|j: int|
                        k < j < 4 ==> self.queue_at(j).len() == 0) && id@ == self.queue_at(
                        k,
                    )[0].correlation_id@,
                None => self.spec_depth() == 0,
            },
    {
        if self.critical.len() > 0 {
            proof {
                assert(self.queue_at(3).len() > 0);
            }
            Some(self.critical[0].correlation_id.clone())
        } else if self.high.len() > 0 {
            proof {
                assert(self.queue_at(2).len() > 0);
                assert(forall|j: int| 2 < j < 4 ==> self.queue_at(j).len() == 0);
            }
            Some(self.high[0].correlation_id.clone())
        } else if self.medium.len() > 0 {
            proof {
                assert(self.queue_at(1).len() > 0);
                assert(forall|j: int| 1 < j < 4 ==> self.queue_at(j).len() == 0);
            }
            Some(self.medium[0].correlation_id.clone())
        } else if self.low.len() > 0 {
            proof {
                assert(self.queue_at(0).len() > 0);
                assert(forall|j: int| 0 < j < 4 ==> self.queue_at(j).len() == 0);
            }
            Some(self.low[0].correlation_id.clone())
        } else {
            None
        }
    }

    /// Current total queue depth.
    pub fn depth(&self) -> (r: usize)
        requires
            self.wf(),
        ensures
            r == self.spec_depth(),
    {
        self.low.len() + self.medium.len() + self.high.len() + self.critical.len()
    }
}

} // verus!
