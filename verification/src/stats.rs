//! Client statistics: monotone counters, a running latency average, and
//! percentile estimation over a bounded reservoir of recent samples.

use vstd::prelude::*;
use vstd::multiset::Multiset;

verus! {

/// How many latency samples the reservoir keeps (the most recent ones).
pub const RESERVOIR_CAP: usize = 256;

/// Nondecreasing order.
pub open spec fn sorted(s: Seq<u64>) -> bool {
    forall|i: int, j: int| 0 <= i < j < s.len() ==> s[i] <= s[j]
}

/// Saturating increment: counters grow monotonically and never wrap.
pub fn sat_inc(x: u64) -> (r: u64)
    ensures
        r == if x == u64::MAX {
            x as int
        } else {
            x + 1
        },
{
    if x == u64::MAX {
        x
    } else {
        x + 1
    }
}

/// The index of a minimal element.
fn min_index(v: &Vec<u64>) -> (r: usize)
    requires
        v@.len() > 0,
    ensures
        0 <= r < v@.len(),
        forall|i: int| 0 <= i < v@.len() ==> v@[r as int] <= #[trigger] v@[i],
{
    let mut best: usize = 0;
    let mut i: usize = 1;
    while i < v.len()
        invariant
            0 <= best < i <= v@.len(),
            forall|j: int| 0 <= j < i ==> v@[best as int] <= #[trigger] v@[j],
        decreases v@.len() - i,
    {
        if v[i] < v[best] {
            best = i;
        }
        i = i + 1;
    }
    best
}

/// A sorted copy of `v`: same contents as a multiset, nondecreasing order.
pub fn sorted_copy(v: &Vec<u64>) -> (r: Vec<u64>)
    ensures
        sorted(r@),
        r@.to_multiset() == v@.to_multiset(),
        r@.len() == v@.len(),
{
    broadcast use vstd::seq_lib::group_to_multiset_ensures;

    let mut rest: Vec<u64> = Vec::new();
    let mut i: usize = 0;
    while i < v.len()
        invariant
            0 <= i <= v@.len(),
            rest@ == v@.subrange(0, i as int),
        decreases v@.len() - i,
    {
        rest.push(v[i]);
        proof {
            assert(rest@ =~= v@.subrange(0, i + 1));
        }
        i = i + 1;
    }
    proof {
        assert(rest@ =~= v@);
    }
    let mut out: Vec<u64> = Vec::new();
    while rest.len() > 0
        invariant
            sorted(out@),
            out@.to_multiset().add(rest@.to_multiset()) =~= v@.to_multiset(),
            out@.len() + rest@.len() == v@.len(),
            forall|a: int, b: int|
                0 <= a < out@.len() && 0 <= b < rest@.len() ==> out@[a] <= rest@[b],
        decreases rest@.len(),
    {
        let j = min_index(&rest);
        let ghost rest0: Seq<u64> = rest@;
        let x = rest.remove(j);
        out.push(x);
        proof {
            broadcast use vstd::seq_lib::group_to_multiset_ensures;

            assert(rest@.to_multiset() =~= rest0.to_multiset().remove(x));
            assert(out@.to_multiset().add(rest@.to_multiset()) =~= v@.to_multiset());
            assert forall|b: int| 0 <= b < rest@.len() implies x <= rest@[b] by {
                if b < j {
                    assert(rest@[b] == rest0[b]);
                } else {
                    assert(rest@[b] == rest0[b + 1]);
                }
            }
            assert forall|a: int, b: int|
                0 <= a < out@.len() && 0 <= b < rest@.len() implies out@[a] <= rest@[b] by {
                if a < out@.len() - 1 {
                    if b < j {
                        assert(rest@[b] == rest0[b]);
                    } else {
                        assert(rest@[b] == rest0[b + 1]);
                    }
                }
            }
        }
    }
    proof {
        broadcast use vstd::seq_lib::group_to_multiset_ensures;

        assert(rest@.to_multiset() =~= Multiset::<u64>::empty());
        assert(out@.to_multiset() =~= v@.to_multiset());
    }
    out
}

/// The `q`-th percentile (nearest-rank) of the values in `v`: the value at
/// one-based rank `ceil(q x n / 100)` of the sorted contents; 0 when empty.
pub fn percentile(v: &Vec<u64>, q: u64) -> (r: u64)
    requires
        1 <= q <= 100,
        v@.len() <= 100_000,
    ensures
        v@.len() == 0 ==> r == 0,
        v@.len() > 0 ==> exists|s: Seq<u64>|
            {
                &&& sorted(s)
                &&& s.to_multiset() == v@.to_multiset()
                &&& s.len() == v@.len()
                &&& r == s[(q * v@.len() + 99) as int / 100 - 1]
            },
{
    let n: usize = v.len();
    if n == 0 {
        return 0;
    }
    let s = sorted_copy(v);
    assert(1 <= q * n <= 100 * 100_000) by (nonlinear_arith)
        requires
            1 <= q <= 100,
            1 <= n <= 100_000,
    ;
    assert(q * n <= 100 * n) by (nonlinear_arith)
        requires
            q <= 100,
            n >= 0,
    ;
    let pos: u64 = (q * (n as u64) + 99) / 100;
    let idx: usize = (pos - 1) as usize;
    let r = s[idx];
    proof {
        assert(sorted(s@) && s@.to_multiset() == v@.to_multiset() && s@.len() == v@.len()
            && r == s@[(q * v@.len() + 99) as int / 100 - 1]);
    }
    r
}

/// Aggregated client statistics. Counters only grow (saturating); the
/// average is a running integer mean in milliseconds; `samples` holds the
/// most recent latencies for percentile estimation.
pub struct StatsAggregator {
    pub requests_sent: u64,
    pub requests_succeeded: u64,
    pub requests_failed: u64,
    pub requests_throttled: u64,
    pub requests_retried: u64,
    pub requests_preempted: u64,
    pub requests_timeout: u64,
    pub requests_circuit_broken: u64,
    pub latency_count: u64,
    pub average_ms: u64,
    pub max_ms: u64,
    pub samples: Vec<u64>,
}

impl StatsAggregator {
    pub open spec fn wf(self) -> bool {
        self.samples@.len() <= RESERVOIR_CAP
    }

    pub fn new() -> (r: StatsAggregator)
        ensures
            r.wf(),
            r.requests_sent == 0,
            r.requests_succeeded == 0,
            r.requests_failed == 0,
            r.requests_throttled == 0,
            r.requests_retried == 0,
            r.requests_preempted == 0,
            r.requests_timeout == 0,
            r.requests_circuit_broken == 0,
            r.latency_count == 0,
            r.average_ms == 0,
            r.max_ms == 0,
            r.samples@.len() == 0,
    {
        StatsAggregator {
            requests_sent: 0,
            requests_succeeded: 0,
            requests_failed: 0,
            requests_throttled: 0,
            requests_retried: 0,
            requests_preempted: 0,
            requests_timeout: 0,
            requests_circuit_broken: 0,
            latency_count: 0,
            average_ms: 0,
            max_ms: 0,
            samples: Vec::new(),
        }
    }

    /// Folds one resolved-request latency into the average, the maximum, and
    /// the reservoir (evicting the oldest sample when full).
    pub fn record_latency(&mut self, ms: u64)
        requires
            old(self).wf(),
        ensures
            final(self).wf(),
            final(self).latency_count == if old(self).latency_count == u64::MAX {
                u64::MAX as int
            } else {
                old(self).latency_count + 1
            },
            old(self).latency_count < u64::MAX ==> final(self).average_ms == (
            old(self).average_ms * old(self).latency_count + ms) / (old(self).latency_count
                + 1),
            final(self).max_ms == if ms > old(self).max_ms {
                ms as int
            } else {
                old(self).max_ms as int
            },
            final(self).samples@ == if old(self).samples@.len() < RESERVOIR_CAP {
                old(self).samples@.push(ms)
            } else {
                old(self).samples@.drop_first().push(ms)
            },
            final(self).requests_sent == old(self).requests_sent,
            final(self).requests_succeeded == old(self).requests_succeeded,
            final(self).requests_failed == old(self).requests_failed,
            final(self).requests_throttled == old(self).requests_throttled,
            final(self).requests_retried == old(self).requests_retried,
            final(self).requests_preempted == old(self).requests_preempted,
            final(self).requests_timeout == old(self).requests_timeout,
            final(self).requests_circuit_broken == old(self).requests_circuit_broken,
    {
        if self.latency_count < u64::MAX {
            let n: u64 = self.latency_count;
            assert(self.average_ms as int * n as int <= 0xffff_ffff_ffff_ffff
                * 0xffff_ffff_ffff_ffff) by (nonlinear_arith)
                requires
                    self.average_ms <= 0xffff_ffff_ffff_ffffu64,
                    n <= 0xffff_ffff_ffff_ffffu64,
                    self.average_ms as int >= 0,
                    n as int >= 0,
            ;
            let total: u128 = self.average_ms as u128 * n as u128 + ms as u128;
            let avg128: u128 = total / (n as u128 + 1);
            assert(total as int <= (n as int + 1) * 0xffff_ffff_ffff_ffff) by (nonlinear_arith)
                requires
                    total as int == self.average_ms as int * n as int + ms as int,
                    self.average_ms <= 0xffff_ffff_ffff_ffffu64,
                    ms <= 0xffff_ffff_ffff_ffffu64,
                    n as int >= 0,
            ;
            assert(avg128 as int <= 0xffff_ffff_ffff_ffff) by (nonlinear_arith)
                requires
                    total as int <= (n as int + 1) * 0xffff_ffff_ffff_ffff,
                    avg128 as int == total as int / (n as int + 1),
                    n as int >= 0,
            ;
            self.average_ms = avg128 as u64;
            self.latency_count = n + 1;
        }
        if ms > self.max_ms {
            self.max_ms = ms;
        }
        if self.samples.len() >= RESERVOIR_CAP {
            self.samples.remove(0);
        }
        self.samples.push(ms);
    }

    /// The current p95 latency estimate: the 95th percentile (nearest rank)
    /// of the reservoir, 0 when empty.
    pub fn p95_ms(&self) -> (r: u64)
        requires
            self.wf(),
        ensures
            self.samples@.len() == 0 ==> r == 0,
            self.samples@.len() > 0 ==> exists|s: Seq<u64>|
                {
                    &&& sorted(s)
                    &&& s.to_multiset() == self.samples@.to_multiset()
                    &&& s.len() == self.samples@.len()
                    &&& r == s[(95 * self.samples@.len() + 99) as int / 100 - 1]
                },
    {
        percentile(&self.samples, 95)
    }

    /// The current p99 latency estimate: the 99th percentile (nearest rank)
    /// of the reservoir, 0 when empty.
    pub fn p99_ms(&self) -> (r: u64)
        requires
            self.wf(),
        ensures
            self.samples@.len() == 0 ==> r == 0,
            self.samples@.len() > 0 ==> exists|s: Seq<u64>|
                {
                    &&& sorted(s)
                    &&& s.to_multiset() == self.samples@.to_multiset()
                    &&& s.len() == self.samples@.len()
                    &&& r == s[(99 * self.samples@.len() + 99) as int / 100 - 1]
                },
    {
        percentile(&self.samples, 99)
    }
}

} // verus!
