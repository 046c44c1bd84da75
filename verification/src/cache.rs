//! The hotel availability cache: TTL-expiring entries keyed by hotel and stay
//! dates, bounded in size with pluggable eviction, and full hit/miss/eviction
//! accounting. Callers supply the clock as milliseconds.

use vstd::prelude::*;
use vstd::string::StrSliceExecFns;
use vstd::string::StringExecFns;
use crate::strutil::str_eq;

verus! {

/// Fixed per-entry bookkeeping overhead counted towards the size budget.
pub const ENTRY_OVERHEAD_BYTES: usize = 16;

/// Cache counters; all monotone but the size and item gauges.
#[derive(Debug)]
pub struct CacheStats {
    pub size_bytes: u64,
    pub items_count: u64,
    pub hit_count: u64,
    pub miss_count: u64,
    pub eviction_count: u64,
    pub expired_count: u64,
    pub rejected_count: u64,
    pub average_lookup_time_ns: u64,
    pub total_lookups: u64,
}

/// A point-in-time copy of the counters.
#[derive(Debug, Clone)]
pub struct CacheStatsReport {
    pub size_bytes: u64,
    pub items_count: u64,
    pub hit_count: u64,
    pub miss_count: u64,
    pub eviction_count: u64,
    pub expired_count: u64,
    pub rejected_count: u64,
    pub average_lookup_time_ns: u64,
    pub total_lookups: u64,
}

#[derive(Debug, Clone, Copy, PartialEq, Eq, Structural)]
pub enum EvictionPolicy {
    LeastRecentlyUsed,
    LeastFrequentlyUsed,
    TimeToLive,
}

#[derive(Debug, Clone)]
pub struct CacheConfig {
    pub max_size_mb: usize,
    pub default_ttl_seconds: u64,
    pub cleanup_interval_seconds: u64,
    pub shards_count: usize,
    pub eviction_policy: EvictionPolicy,
}

impl Default for CacheConfig {
    /// 100 MB, five-minute TTL, minute cleanup, 16 shards, least recently
    /// used eviction.
    fn default() -> (r: CacheConfig)
        ensures
            r.max_size_mb == 100,
            r.default_ttl_seconds == 300,
            r.cleanup_interval_seconds == 60,
            r.shards_count == 16,
            r.eviction_policy == EvictionPolicy::LeastRecentlyUsed,
    {
        CacheConfig {
            max_size_mb: 100,
            default_ttl_seconds: 300,
            cleanup_interval_seconds: 60,
            shards_count: 16,
            eviction_policy: EvictionPolicy::LeastRecentlyUsed,
        }
    }
}

/// The combined cache key text: `hotel:check_in:check_out`.
pub fn create_cache_key(hotel_id: &str, check_in: &str, check_out: &str) -> (r: String)
    ensures
        r@ == hotel_id@ + ":"@ + check_in@ + ":"@ + check_out@,
{
    proof {
        reveal_strlit(":");
    }
    let mut key = hotel_id.to_owned();
    key.append(":");
    key.append(check_in);
    key.append(":");
    key.append(check_out);
    key
}

/// The size one item counts for: key text, payload, and fixed overhead.
pub fn calculate_item_size(key: &str, data: &[u8]) -> (r: usize)
    requires
        key@.len() + data@.len() + ENTRY_OVERHEAD_BYTES <= usize::MAX,
    ensures
        r == key@.len() + data@.len() + ENTRY_OVERHEAD_BYTES,
{
    key.unicode_len() + data.len() + ENTRY_OVERHEAD_BYTES
}

/// One cached availability record.
pub struct CacheEntry {
    pub hotel_id: String,
    pub check_in: String,
    pub check_out: String,
    pub data: Vec<u8>,
    pub created_at_ms: u64,
    pub ttl_ms: u64,
    pub access_count: u64,
    pub last_accessed_ms: u64,
}

impl CacheEntry {
    /// What this entry counts for in the size budget: its key text (two
    /// separators included), payload, and overhead.
    pub open spec fn spec_size(self) -> int {
        self.hotel_id@.len() + self.check_in@.len() + self.check_out@.len() + 2 + self.data@.len()
            + ENTRY_OVERHEAD_BYTES
    }

    /// Whether the entry has outlived its time to live at `now_ms`.
    pub open spec fn spec_expired(self, now_ms: u64) -> bool {
        (if now_ms >= self.created_at_ms {
            now_ms - self.created_at_ms
        } else {
            0int
        }) > self.ttl_ms
    }

    pub fn is_expired(&self, now_ms: u64) -> (r: bool)
        ensures
            r == self.spec_expired(now_ms),
    {
        let elapsed: u64 = if now_ms >= self.created_at_ms {
            now_ms - self.created_at_ms
        } else {
            0
        };
        elapsed > self.ttl_ms
    }

    /// Whether the entry is keyed by this hotel and stay.
    pub open spec fn spec_keyed(self, h: Seq<char>, ci: Seq<char>, co: Seq<char>) -> bool {
        self.hotel_id@ == h && self.check_in@ == ci && self.check_out@ == co
    }

    /// The eviction metric under a policy: least recently used evicts the
    /// least-accessed entry, least frequently used the least recently
    /// touched, time to live the oldest (mirroring the reference accounting).
    pub open spec fn spec_metric(self, policy: EvictionPolicy) -> u64 {
        match policy {
            EvictionPolicy::LeastRecentlyUsed => self.access_count,
            EvictionPolicy::LeastFrequentlyUsed => self.last_accessed_ms,
            EvictionPolicy::TimeToLive => self.created_at_ms,
        }
    }
}

/// The summed size of all entries.
pub open spec fn spec_total_size(s: Seq<CacheEntry>) -> int
    decreases s.len(),
{
    if s.len() == 0 {
        0
    } else {
        spec_total_size(s.drop_last()) + s.last().spec_size()
    }
}

pub proof fn lemma_total_size_nonneg(s: Seq<CacheEntry>)
    ensures
        spec_total_size(s) >= 18 * s.len(),
    decreases s.len(),
{
    if s.len() > 0 {
        lemma_total_size_nonneg(s.drop_last());
    }
}

proof fn lemma_total_size_remove(s: Seq<CacheEntry>, i: int)
    requires
        0 <= i < s.len(),
    ensures
        spec_total_size(s.remove(i)) == spec_total_size(s) - s[i].spec_size(),
    decreases s.len(),
{
    if i == s.len() - 1 {
        assert(s.remove(i) =~= s.drop_last());
    } else {
        lemma_total_size_remove(s.drop_last(), i);
        assert(s.remove(i).drop_last() =~= s.drop_last().remove(i));
        assert(s.remove(i).last() == s.last());
    }
}

/// The view of an optional key part.
pub open spec fn spec_opt_view(o: Option<&str>) -> Option<Seq<char>> {
    match o {
        Some(s) => Some(s@),
        None => None,
    }
}

/// Whether some entry is keyed (h, ci, co).
pub open spec fn spec_has_key(s: Seq<CacheEntry>, h: Seq<char>, ci: Seq<char>, co: Seq<char>) -> bool {
    exists|i: int| 0 <= i < s.len() && (#[trigger] s[i]).spec_keyed(h, ci, co)
}

/// `i` is the first index keyed (h, ci, co).
pub open spec fn spec_is_first_key(
    s: Seq<CacheEntry>,
    h: Seq<char>,
    ci: Seq<char>,
    co: Seq<char>,
    i: int,
) -> bool {
    &&& 0 <= i < s.len()
    &&& s[i].spec_keyed(h, ci, co)
    &&& forall|j: int| 0 <= j < i ==> !(#[trigger] s[j]).spec_keyed(h, ci, co)
}

/// The first index keyed (h, ci, co), when one exists.
pub open spec fn spec_first_key_idx(
    s: Seq<CacheEntry>,
    h: Seq<char>,
    ci: Seq<char>,
    co: Seq<char>,
) -> int {
    choose|i: int| spec_is_first_key(s, h, ci, co, i)
}

/// `s` with its first entry keyed (h, ci, co) removed; `s` when none is.
pub open spec fn spec_after_remove_key(
    s: Seq<CacheEntry>,
    h: Seq<char>,
    ci: Seq<char>,
    co: Seq<char>,
) -> Seq<CacheEntry> {
    if spec_has_key(s, h, ci, co) {
        s.remove(spec_first_key_idx(s, h, ci, co))
    } else {
        s
    }
}

proof fn lemma_first_key_idx_is(
    s: Seq<CacheEntry>,
    h: Seq<char>,
    ci: Seq<char>,
    co: Seq<char>,
    i: int,
)
    requires
        spec_is_first_key(s, h, ci, co, i),
    ensures
        spec_has_key(s, h, ci, co),
        spec_first_key_idx(s, h, ci, co) == i,
{
    assert(spec_has_key(s, h, ci, co));
    let c = spec_first_key_idx(s, h, ci, co);
    assert(spec_is_first_key(s, h, ci, co, c));
    if c < i {
        assert(!s[c].spec_keyed(h, ci, co));
    } else if c > i {
        assert(!s[i].spec_keyed(h, ci, co));
    }
}

/// `i` is the first index of minimal eviction metric.
pub open spec fn spec_is_first_min(s: Seq<CacheEntry>, policy: EvictionPolicy, i: int) -> bool {
    &&& 0 <= i < s.len()
    &&& forall|j: int|
        0 <= j < s.len() ==> (#[trigger] s[j]).spec_metric(policy) >= s[i].spec_metric(policy)
    &&& forall|j: int| 0 <= j < i ==> (#[trigger] s[j]).spec_metric(policy) > s[i].spec_metric(
        policy,
    )
}

/// The first index of minimal eviction metric in a nonempty sequence.
pub open spec fn spec_first_min_idx(s: Seq<CacheEntry>, policy: EvictionPolicy) -> int {
    choose|i: int| spec_is_first_min(s, policy, i)
}

/// `s` with the entry the policy ranks first removed; `s` when empty.
pub open spec fn spec_after_evict(s: Seq<CacheEntry>, policy: EvictionPolicy) -> Seq<CacheEntry> {
    if s.len() == 0 {
        s
    } else {
        s.remove(spec_first_min_idx(s, policy))
    }
}

/// `s` after `n` evictions under the policy.
pub open spec fn spec_after_evict_n(
    s: Seq<CacheEntry>,
    policy: EvictionPolicy,
    n: nat,
) -> Seq<CacheEntry>
    decreases n,
{
    if n == 0 {
        s
    } else {
        spec_after_evict(spec_after_evict_n(s, policy, (n - 1) as nat), policy)
    }
}

proof fn lemma_first_min_idx_is(s: Seq<CacheEntry>, policy: EvictionPolicy, i: int)
    requires
        spec_is_first_min(s, policy, i),
    ensures
        spec_first_min_idx(s, policy) == i,
{
    let c = spec_first_min_idx(s, policy);
    assert(spec_is_first_min(s, policy, c));
    if c < i {
        assert(s[c].spec_metric(policy) > s[i].spec_metric(policy));
        assert(s[c].spec_metric(policy) >= s[i].spec_metric(policy));
    } else if c > i {
        assert(s[i].spec_metric(policy) > s[c].spec_metric(policy));
    }
}

/// The availability-cache interface: store and look up hotel availability by
/// hotel and stay dates under TTL expiry, with statistics, bulk invalidation,
/// prefetching, and resizing. Callers supply the clock in milliseconds.
pub trait AvailabilityCache: Sized {
    /// The implementation's internal consistency.
    spec fn cache_inv(&self) -> bool;

    fn new(config: CacheConfig) -> (r: Self)
        ensures
            r.cache_inv(),
    ;

    /// Stores availability data; true when stored.
    fn store(
        &mut self,
        hotel_id: &str,
        check_in: &str,
        check_out: &str,
        data: Vec<u8>,
        ttl_ms: Option<u64>,
        now_ms: u64,
    ) -> (stored: bool)
        requires
            old(self).cache_inv(),
        ensures
            final(self).cache_inv(),
    ;

    /// Retrieves unexpired availability data; the flag reports a cache hit.
    fn get(&mut self, hotel_id: &str, check_in: &str, check_out: &str, now_ms: u64) -> (r: Option<
        (Vec<u8>, bool),
    >)
        requires
            old(self).cache_inv(),
        ensures
            final(self).cache_inv(),
    ;

    fn stats(&self) -> CacheStatsReport;

    fn set_eviction_policy(&mut self, policy: EvictionPolicy)
        requires
            old(self).cache_inv(),
        ensures
            final(self).cache_inv(),
    ;

    /// Warms the cache for the given keys; returns how many were stored.
    fn prefetch(
        &mut self,
        keys: Vec<(String, String, String)>,
        ttl_ms: Option<u64>,
        now_ms: u64,
    ) -> (n: usize)
        requires
            old(self).cache_inv(),
        ensures
            final(self).cache_inv(),
    ;

    /// Removes entries matching the pattern; returns how many.
    fn invalidate(
        &mut self,
        hotel_id: Option<&str>,
        check_in: Option<&str>,
        check_out: Option<&str>,
    ) -> (n: usize)
        requires
            old(self).cache_inv(),
        ensures
            final(self).cache_inv(),
    ;

    /// Changes the size budget, evicting when shrinking; true on success.
    fn resize(&mut self, new_max_size_mb: usize) -> (r: bool)
        requires
            old(self).cache_inv(),
        ensures
            final(self).cache_inv(),
    ;
}

/// An in-memory availability cache with TTL expiry and size-bounded storage.
pub struct ExampleCache {
    pub entries: Vec<CacheEntry>,
    pub config: CacheConfig,
    pub stats: CacheStats,
}

impl ExampleCache {
    /// Keys are unique and the gauges agree with the entries.
    pub open spec fn inv(self) -> bool {
        &&& forall|i: int, j: int|
            0 <= i < j < self.entries@.len() ==> !(#[trigger] self.entries@[i]).spec_keyed(
                (#[trigger] self.entries@[j]).hotel_id@,
                self.entries@[j].check_in@,
                self.entries@[j].check_out@,
            )
        &&& self.stats.size_bytes == spec_total_size(self.entries@)
        &&& self.stats.items_count == self.entries@.len()
    }

    pub fn new(config: CacheConfig) -> (r: ExampleCache)
        ensures
            r.inv(),
            r.entries@.len() == 0,
            r.config == config,
            r.stats.hit_count == 0,
            r.stats.miss_count == 0,
            r.stats.eviction_count == 0,
            r.stats.expired_count == 0,
            r.stats.rejected_count == 0,
            r.stats.total_lookups == 0,
            r.stats.average_lookup_time_ns == 0,
    {
        ExampleCache {
            entries: Vec::new(),
            config,
            stats: CacheStats {
                size_bytes: 0,
                items_count: 0,
                hit_count: 0,
                miss_count: 0,
                eviction_count: 0,
                expired_count: 0,
                rejected_count: 0,
                average_lookup_time_ns: 0,
                total_lookups: 0,
            },
        }
    }

    /// The first entry keyed by this hotel and stay.
    fn find_entry(&self, hotel_id: &str, check_in: &str, check_out: &str) -> (r: Option<usize>)
        ensures
            match r {
                Some(i) => 0 <= i < self.entries@.len() && self.entries@[i as int].spec_keyed(
                    hotel_id@,
                    check_in@,
                    check_out@,
                ) && forall|j: int|
                    0 <= j < i ==> !(#[trigger] self.entries@[j]).spec_keyed(
                        hotel_id@,
                        check_in@,
                        check_out@,
                    ),
                None => forall|j: int|
                    0 <= j < self.entries@.len() ==> !(#[trigger] self.entries@[j]).spec_keyed(
                        hotel_id@,
                        check_in@,
                        check_out@,
                    ),
            },
    {
        let mut i: usize = 0;
        while i < self.entries.len()
            invariant
                0 <= i <= self.entries@.len(),
                forall|j: int|
                    0 <= j < i ==> !(#[trigger] self.entries@[j]).spec_keyed(
                        hotel_id@,
                        check_in@,
                        check_out@,
                    ),
            decreases self.entries@.len() - i,
        {
            let e = &self.entries[i];
            if str_eq(e.hotel_id.as_str(), hotel_id) && str_eq(e.check_in.as_str(), check_in)
                && str_eq(e.check_out.as_str(), check_out) {
                return Some(i);
            }
            i = i + 1;
        }
        None
    }

    /// The index of the first entry with the minimal eviction metric.
    fn oldest_index(&self, policy: EvictionPolicy) -> (r: usize)
        requires
            self.entries@.len() > 0,
        ensures
            0 <= r < self.entries@.len(),
            forall|j: int|
                0 <= j < self.entries@.len() ==> (#[trigger] self.entries@[j]).spec_metric(policy)
                    >= self.entries@[r as int].spec_metric(policy),
            forall|j: int|
                0 <= j < r ==> (#[trigger] self.entries@[j]).spec_metric(policy)
                    > self.entries@[r as int].spec_metric(policy),
    {
        let mut best: usize = 0;
        let mut i: usize = 1;
        while i < self.entries.len()
            invariant
                0 <= best < i <= self.entries@.len(),
                forall|j: int|
                    0 <= j < i ==> (#[trigger] self.entries@[j]).spec_metric(policy)
                        >= self.entries@[best as int].spec_metric(policy),
                forall|j: int|
                    0 <= j < best ==> (#[trigger] self.entries@[j]).spec_metric(policy)
                        > self.entries@[best as int].spec_metric(policy),
            decreases self.entries@.len() - i,
        {
            let m = {
                let e = &self.entries[i];
                match policy {
                    EvictionPolicy::LeastRecentlyUsed => e.access_count,
                    EvictionPolicy::LeastFrequentlyUsed => e.last_accessed_ms,
                    EvictionPolicy::TimeToLive => e.created_at_ms,
                }
            };
            let bm = {
                let e = &self.entries[best];
                match policy {
                    EvictionPolicy::LeastRecentlyUsed => e.access_count,
                    EvictionPolicy::LeastFrequentlyUsed => e.last_accessed_ms,
                    EvictionPolicy::TimeToLive => e.created_at_ms,
                }
            };
            if m < bm {
                best = i;
            }
            i = i + 1;
        }
        best
    }

    /// Evicts the entry the configured policy ranks first; no change when
    /// the cache is empty.
    pub fn remove_oldest_entry(&mut self)
        requires
            old(self).inv(),
        ensures
            final(self).inv(),
            final(self).config == old(self).config,
            final(self).entries@ == spec_after_evict(
                old(self).entries@,
                old(self).config.eviction_policy,
            ),
            old(self).entries@.len() > 0 ==> {
                &&& final(self).entries@.len() == old(self).entries@.len() - 1
                &&& final(self).stats.eviction_count == sat_add1(old(self).stats.eviction_count)
            },
            old(self).entries@.len() == 0 ==> *final(self) == *old(self),
            final(self).stats.hit_count == old(self).stats.hit_count,
            final(self).stats.miss_count == old(self).stats.miss_count,
            final(self).stats.expired_count == old(self).stats.expired_count,
            final(self).stats.rejected_count == old(self).stats.rejected_count,
            final(self).stats.total_lookups == old(self).stats.total_lookups,
            final(self).stats.average_lookup_time_ns == old(self).stats.average_lookup_time_ns,
    {
        if self.entries.len() == 0 {
            return ;
        }
        let policy = self.config.eviction_policy;
        let i = self.oldest_index(policy);
        proof {
            lemma_first_min_idx_is(self.entries@, policy, i as int);
            lemma_total_size_remove(self.entries@, i as int);
            lemma_total_size_nonneg(self.entries@.remove(i as int));
        }
        let victim = self.entries.remove(i);
        let vsize: u64 = entry_size(&victim);
        self.stats.size_bytes = self.stats.size_bytes - vsize;
        self.stats.items_count = self.stats.items_count - 1;
        self.stats.eviction_count = crate::stats::sat_inc(self.stats.eviction_count);
    }

    /// Removes the entry keyed by this hotel and stay, if one is cached; the
    /// removal counts as an eviction, and as an expiry when `expired`.
    pub fn remove_entry(
        &mut self,
        hotel_id: &str,
        check_in: &str,
        check_out: &str,
        expired: bool,
    ) -> (removed: bool)
        requires
            old(self).inv(),
        ensures
            final(self).inv(),
            final(self).config == old(self).config,
            final(self).entries@ == spec_after_remove_key(
                old(self).entries@,
                hotel_id@,
                check_in@,
                check_out@,
            ),
            removed == spec_has_key(old(self).entries@, hotel_id@, check_in@, check_out@),
            removed ==> {
                &&& final(self).stats.eviction_count == sat_add1(old(self).stats.eviction_count)
                &&& final(self).stats.expired_count == if expired {
                    sat_add1(old(self).stats.expired_count)
                } else {
                    old(self).stats.expired_count as int
                }
            },
            !removed ==> *final(self) == *old(self),
            final(self).stats.hit_count == old(self).stats.hit_count,
            final(self).stats.miss_count == old(self).stats.miss_count,
            final(self).stats.rejected_count == old(self).stats.rejected_count,
            final(self).stats.total_lookups == old(self).stats.total_lookups,
            final(self).stats.average_lookup_time_ns == old(self).stats.average_lookup_time_ns,
    {
        let found = self.find_entry(hotel_id, check_in, check_out);
        match found {
            None => false,
            Some(i) => {
                proof {
                    lemma_first_key_idx_is(
                        self.entries@,
                        hotel_id@,
                        check_in@,
                        check_out@,
                        i as int,
                    );
                    lemma_total_size_remove(self.entries@, i as int);
                    lemma_total_size_nonneg(self.entries@.remove(i as int));
                }
                let victim = self.entries.remove(i);
                let vsize: u64 = entry_size(&victim);
                self.stats.size_bytes = self.stats.size_bytes - vsize;
                self.stats.items_count = self.stats.items_count - 1;
                self.stats.eviction_count = crate::stats::sat_inc(self.stats.eviction_count);
                if expired {
                    self.stats.expired_count = crate::stats::sat_inc(self.stats.expired_count);
                }
                true
            },
        }
    }
}

impl ExampleCache {
    /// Caches availability data for a hotel and stay, under the given TTL or
    /// the configured default.
    ///
    /// An entry already keyed the same is replaced. When the size budget
    /// would be exceeded, the configured policy evicts one entry first; the
    /// new item is stored regardless. Rejects (counting the rejection) only
    /// when the size gauge would overflow.
    pub fn store(
        &mut self,
        hotel_id: &str,
        check_in: &str,
        check_out: &str,
        data: Vec<u8>,
        ttl_ms: Option<u64>,
        now_ms: u64,
    ) -> (stored: bool)
        requires
            old(self).inv(),
        ensures
            final(self).inv(),
            final(self).config == old(self).config,
            ({
                let item_size = hotel_id@.len() + check_in@.len() + check_out@.len() + 2
                    + data@.len() + ENTRY_OVERHEAD_BYTES;
                let would_overflow = spec_total_size(old(self).entries@) + item_size > u64::MAX;
                &&& stored == !would_overflow
                &&& would_overflow ==> {
                    &&& final(self).entries@ == old(self).entries@
                    &&& final(self).stats.rejected_count == sat_add1(
                        old(self).stats.rejected_count,
                    )
                    &&& final(self).stats == (CacheStats {
                        rejected_count: final(self).stats.rejected_count,
                        ..old(self).stats
                    })
                }
                &&& !would_overflow ==> ({
                    let e1 = spec_after_remove_key(
                        old(self).entries@,
                        hotel_id@,
                        check_in@,
                        check_out@,
                    );
                    let evicting = spec_total_size(e1) + item_size > old(self).config.max_size_mb
                        * 1024 * 1024;
                    let e2 = if evicting {
                        spec_after_evict(e1, old(self).config.eviction_policy)
                    } else {
                        e1
                    };
                    &&& final(self).entries@ == e2.push(final(self).entries@.last())
                    &&& final(self).entries@.last().spec_keyed(hotel_id@, check_in@, check_out@)
                    &&& final(self).entries@.last().data == data
                    &&& final(self).entries@.last().created_at_ms == now_ms
                    &&& final(self).entries@.last().last_accessed_ms == now_ms
                    &&& final(self).entries@.last().access_count == 0
                    &&& final(self).entries@.last().ttl_ms == (match ttl_ms {
                        Some(t) => t as int,
                        None => if old(self).config.default_ttl_seconds <= u64::MAX as int / 1000 {
                            old(self).config.default_ttl_seconds * 1000
                        } else {
                            u64::MAX as int
                        },
                    })
                    &&& final(self).stats.rejected_count == old(self).stats.rejected_count
                    &&& final(self).stats.hit_count == old(self).stats.hit_count
                    &&& final(self).stats.miss_count == old(self).stats.miss_count
                    &&& final(self).stats.total_lookups == old(self).stats.total_lookups
                    &&& final(self).stats.average_lookup_time_ns == old(
                        self,
                    ).stats.average_lookup_time_ns
                })
            }),
    {
        let ghost pre: Seq<CacheEntry> = self.entries@;
        let default_ttl: u64 = {
            let secs = self.config.default_ttl_seconds;
            if secs > u64::MAX / 1000 {
                u64::MAX
            } else {
                secs * 1000
            }
        };
        proof {
            assert(self.config.default_ttl_seconds * 1000 <= u64::MAX || default_ttl == u64::MAX);
        }
        let ttl: u64 = match ttl_ms {
            Some(t) => t,
            None => default_ttl,
        };
        let hl: usize = hotel_id.unicode_len();
        let cil: usize = check_in.unicode_len();
        let col: usize = check_out.unicode_len();
        let item_size128: u128 = hl as u128 + cil as u128 + col as u128 + 2 + data.len() as u128
            + ENTRY_OVERHEAD_BYTES as u128;
        if self.stats.size_bytes as u128 + item_size128 > u64::MAX as u128 {
            self.stats.rejected_count = crate::stats::sat_inc(self.stats.rejected_count);
            return false;
        }
        let item_size: u64 = item_size128 as u64;
        let _ = self.remove_entry(hotel_id, check_in, check_out, false);
        let ghost e1: Seq<CacheEntry> = self.entries@;
        proof {
            lemma_after_remove_key_facts(pre, hotel_id@, check_in@, check_out@);
        }
        let max_bytes128: u128 = self.config.max_size_mb as u128 * 1024 * 1024;
        let evicting: bool = self.stats.size_bytes as u128 + item_size as u128 > max_bytes128;
        if evicting {
            self.remove_oldest_entry();
        }
        let ghost e2: Seq<CacheEntry> = self.entries@;
        proof {
            if evicting {
                lemma_after_evict_facts(e1, self.config.eviction_policy);
                lemma_no_key_after_evict(e1, self.config.eviction_policy, hotel_id@, check_in@,
                    check_out@);
            }
            lemma_total_size_nonneg(e2);
        }
        let entry = CacheEntry {
            hotel_id: hotel_id.to_owned(),
            check_in: check_in.to_owned(),
            check_out: check_out.to_owned(),
            data,
            created_at_ms: now_ms,
            ttl_ms: ttl,
            access_count: 0,
            last_accessed_ms: now_ms,
        };
        self.entries.push(entry);
        proof {
            assert(self.entries@.drop_last() =~= e2);
            assert(spec_total_size(self.entries@) == spec_total_size(e2)
                + self.entries@.last().spec_size());
        }
        self.stats.size_bytes = self.stats.size_bytes + item_size;
        self.stats.items_count = self.stats.items_count + 1;
        true
    }

    /// Looks availability up for a hotel and stay.
    ///
    /// A live entry is a hit: its access count grows, its last access moves
    /// to now, and its data comes back. An expired entry is removed and
    /// counted (as an expiry and an eviction, not a miss). A missing key is
    /// a miss. Every call counts one lookup.
    pub fn get(&mut self, hotel_id: &str, check_in: &str, check_out: &str, now_ms: u64) -> (r:
        Option<(Vec<u8>, bool)>)
        requires
            old(self).inv(),
        ensures
            final(self).inv(),
            final(self).config == old(self).config,
            final(self).stats.total_lookups == sat_add1(old(self).stats.total_lookups),
            ({
                let had = exists|i: int|
                    0 <= i < old(self).entries@.len() && (
                    #[trigger] old(self).entries@[i]).spec_keyed(
                        hotel_id@,
                        check_in@,
                        check_out@,
                    );
                if !had {
                    // miss: only the miss and lookup counters move
                    &&& r is None
                    &&& final(self).entries@ == old(self).entries@
                    &&& final(self).stats.miss_count == sat_add1(old(self).stats.miss_count)
                    &&& final(self).stats == (CacheStats {
                        miss_count: final(self).stats.miss_count,
                        total_lookups: final(self).stats.total_lookups,
                        ..old(self).stats
                    })
                } else {
                    exists|i: int|
                        {
                            &&& 0 <= i < old(self).entries@.len()
                            &&& (#[trigger] old(self).entries@[i]).spec_keyed(
                                hotel_id@,
                                check_in@,
                                check_out@,
                            )
                            &&& if old(self).entries@[i].spec_expired(now_ms) {
                                // expired: removed, counted as an expiry and
                                // an eviction, neither hit nor miss
                                &&& r is None
                                &&& final(self).entries@ == old(self).entries@.remove(i)
                                &&& final(self).stats.expired_count == sat_add1(
                                    old(self).stats.expired_count,
                                )
                                &&& final(self).stats.eviction_count == sat_add1(
                                    old(self).stats.eviction_count,
                                )
                                &&& final(self).stats == (CacheStats {
                                    expired_count: final(self).stats.expired_count,
                                    eviction_count: final(self).stats.eviction_count,
                                    size_bytes: final(self).stats.size_bytes,
                                    items_count: final(self).stats.items_count,
                                    total_lookups: final(self).stats.total_lookups,
                                    ..old(self).stats
                                })
                            } else {
                                // hit
                                &&& (r matches Some(p) && p.0@ == old(self).entries@[i].data@
                                    && p.1 == true)
                                &&& final(self).entries@ == old(self).entries@.update(
                                    i,
                                    CacheEntry {
                                        access_count: sat_add1(
                                            old(self).entries@[i].access_count,
                                        ) as u64,
                                        last_accessed_ms: now_ms,
                                        ..old(self).entries@[i]
                                    },
                                )
                                &&& final(self).stats.hit_count == sat_add1(
                                    old(self).stats.hit_count,
                                )
                                &&& final(self).stats == (CacheStats {
                                    hit_count: final(self).stats.hit_count,
                                    total_lookups: final(self).stats.total_lookups,
                                    ..old(self).stats
                                })
                            }
                        }
                }
            }),
    {
        self.stats.total_lookups = crate::stats::sat_inc(self.stats.total_lookups);
        let found = self.find_entry(hotel_id, check_in, check_out);
        match found {
            None => {
                self.stats.miss_count = crate::stats::sat_inc(self.stats.miss_count);
                None
            },
            Some(i) => {
                let expired = self.entries[i].is_expired(now_ms);
                if expired {
                    proof {
                        lemma_total_size_remove(self.entries@, i as int);
                        lemma_total_size_nonneg(self.entries@.remove(i as int));
                    }
                    let victim = self.entries.remove(i);
                    let vsize: u64 = entry_size(&victim);
                    self.stats.size_bytes = self.stats.size_bytes - vsize;
                    self.stats.items_count = self.stats.items_count - 1;
                    self.stats.expired_count = crate::stats::sat_inc(self.stats.expired_count);
                    self.stats.eviction_count = crate::stats::sat_inc(self.stats.eviction_count);
                    None
                } else {
                    let ghost pre: Seq<CacheEntry> = self.entries@;
                    let mut e = self.entries.remove(i);
                    let data_copy = copy_bytes(&e.data);
                    e.access_count = crate::stats::sat_inc(e.access_count);
                    e.last_accessed_ms = now_ms;
                    self.entries.insert(i, e);
                    self.stats.hit_count = crate::stats::sat_inc(self.stats.hit_count);
                    proof {
                        assert(self.entries@ =~= pre.update(
                            i as int,
                            self.entries@[i as int],
                        ));
                        lemma_total_size_update_same(pre, self.entries@, i as int);
                    }
                    Some((data_copy, true))
                }
            },
        }
    }

    /// A point-in-time copy of the counters; reading mutates nothing.
    pub fn stats(&self) -> (r: CacheStatsReport)
        ensures
            r.size_bytes == self.stats.size_bytes,
            r.items_count == self.stats.items_count,
            r.hit_count == self.stats.hit_count,
            r.miss_count == self.stats.miss_count,
            r.eviction_count == self.stats.eviction_count,
            r.expired_count == self.stats.expired_count,
            r.rejected_count == self.stats.rejected_count,
            r.average_lookup_time_ns == self.stats.average_lookup_time_ns,
            r.total_lookups == self.stats.total_lookups,
    {
        CacheStatsReport {
            size_bytes: self.stats.size_bytes,
            items_count: self.stats.items_count,
            hit_count: self.stats.hit_count,
            miss_count: self.stats.miss_count,
            eviction_count: self.stats.eviction_count,
            expired_count: self.stats.expired_count,
            rejected_count: self.stats.rejected_count,
            average_lookup_time_ns: self.stats.average_lookup_time_ns,
            total_lookups: self.stats.total_lookups,
        }
    }

    /// Switches the eviction policy for all later evictions.
    pub fn set_eviction_policy(&mut self, policy: EvictionPolicy)
        requires
            old(self).inv(),
        ensures
            final(self).inv(),
            final(self).entries@ == old(self).entries@,
            final(self).config.eviction_policy == policy,
            final(self).config.max_size_mb == old(self).config.max_size_mb,
            final(self).config.default_ttl_seconds == old(self).config.default_ttl_seconds,
    {
        self.config.eviction_policy = policy;
    }

    /// Warms the cache: stores the five-byte placeholder for each key under
    /// the given TTL. Returns how many keys were stored; every key is, short
    /// of a size-gauge overflow.
    pub fn prefetch(
        &mut self,
        keys: Vec<(String, String, String)>,
        ttl_ms: Option<u64>,
        now_ms: u64,
    ) -> (n: usize)
        requires
            old(self).inv(),
        ensures
            final(self).inv(),
            n <= keys@.len(),
            // every key is stored whenever the size gauge cannot overflow
            spec_total_size(old(self).entries@) + spec_prefetch_budget(keys@) <= u64::MAX ==> n
                == keys@.len(),
            final(self).stats.rejected_count == old(self).stats.rejected_count && old(
                self,
            ).stats.rejected_count < u64::MAX ==> n == keys@.len(),
            // the key stored last really is cached with the placeholder data
            // (earlier ones may since have been evicted or replaced)
            n == keys@.len() && keys@.len() > 0 ==> final(self).entries@.len() > 0 && final(self).entries@.last().spec_keyed(
                keys@.last().0@,
                keys@.last().1@,
                keys@.last().2@,
            ) && final(self).entries@.last().data@ =~= seq![1u8, 2u8, 3u8, 4u8, 5u8],
    {
        let ghost fits: bool = spec_total_size(old(self).entries@) + spec_prefetch_budget(keys@)
            <= u64::MAX;
        let ghost orig_total: int = spec_total_size(old(self).entries@);
        proof {
            lemma_total_size_nonneg(self.entries@);
            lemma_prefetch_budget_prefix(keys@, 0);
            assert(keys@.subrange(0, 0) =~= Seq::<(String, String, String)>::empty());
        }
        let mut n: usize = 0;
        let mut i: usize = 0;
        while i < keys.len()
            invariant
                self.inv(),
                0 <= i <= keys@.len(),
                n <= i,
                fits == (orig_total + spec_prefetch_budget(keys@) <= u64::MAX),
                orig_total == spec_total_size(old(self).entries@),
                fits ==> n == i && spec_total_size(self.entries@) <= orig_total
                    + spec_prefetch_budget(keys@.subrange(0, i as int)),
                self.stats.rejected_count >= old(self).stats.rejected_count,
                self.stats.rejected_count == old(self).stats.rejected_count && old(
                    self,
                ).stats.rejected_count < u64::MAX ==> n == i,
                n == i && i > 0 ==> self.entries@.len() > 0 && self.entries@.last().spec_keyed(
                    keys@[i - 1].0@,
                    keys@[i - 1].1@,
                    keys@[i - 1].2@,
                ) && self.entries@.last().data@ =~= seq![1u8, 2u8, 3u8, 4u8, 5u8],
            decreases keys@.len() - i,
        {
            let ghost pre_entries: Seq<CacheEntry> = self.entries@;
            let (h, ci, co) = &keys[i];
            let mut dummy: Vec<u8> = Vec::new();
            dummy.push(1);
            dummy.push(2);
            dummy.push(3);
            dummy.push(4);
            dummy.push(5);
            proof {
                assert(dummy@ =~= seq![1u8, 2u8, 3u8, 4u8, 5u8]);
                lemma_prefetch_budget_prefix(keys@, i as int);
                lemma_prefetch_budget_prefix(keys@, i + 1);
                assert(keys@.subrange(0, i + 1).drop_last() =~= keys@.subrange(0, i as int));
                assert(keys@.subrange(0, i + 1).last() == keys@[i as int]);
            }
            let stored = self.store(h.as_str(), ci.as_str(), co.as_str(), dummy, ttl_ms, now_ms);
            proof {
                if fits {
                    let item = keys@[i as int].0@.len() + keys@[i as int].1@.len()
                        + keys@[i as int].2@.len() + 2 + 5 + ENTRY_OVERHEAD_BYTES;
                    assert(spec_total_size(pre_entries) + item <= u64::MAX);
                    assert(stored);
                    let e1 = spec_after_remove_key(pre_entries, h@, ci@, co@);
                    lemma_after_remove_key_facts(pre_entries, h@, ci@, co@);
                    let evicting = spec_total_size(e1) + item > self.config.max_size_mb * 1024
                        * 1024;
                    let e2 = if evicting {
                        spec_after_evict(e1, self.config.eviction_policy)
                    } else {
                        e1
                    };
                    if evicting {
                        lemma_after_evict_facts(e1, self.config.eviction_policy);
                    }
                    assert(self.entries@.drop_last() =~= e2);
                    assert(spec_total_size(self.entries@) == spec_total_size(e2)
                        + self.entries@.last().spec_size());
                    assert(self.entries@.last().spec_size() == item);
                }
            }
            if stored {
                n = n + 1;
            }
            i = i + 1;
        }
        proof {
            if fits {
                assert(keys@.subrange(0, keys@.len() as int) =~= keys@);
            }
        }
        n
    }

    /// Removes every entry matching the given key parts (a part left `None`
    /// matches anything); returns how many were removed, each counted as an
    /// eviction.
    pub fn invalidate(
        &mut self,
        hotel_id: Option<&str>,
        check_in: Option<&str>,
        check_out: Option<&str>,
    ) -> (n: usize)
        requires
            old(self).inv(),
        ensures
            final(self).inv(),
            final(self).config == old(self).config,
            final(self).entries@ == old(self).entries@.filter(
                spec_keep_unmatched(
                    spec_opt_view(hotel_id),
                    spec_opt_view(check_in),
                    spec_opt_view(check_out),
                ),
            ),
            n == old(self).entries@.len() - final(self).entries@.len(),
            // each removal counts as an eviction; the other counters stay
            final(self).stats.eviction_count == if old(self).stats.eviction_count + n
                > u64::MAX {
                u64::MAX as int
            } else {
                old(self).stats.eviction_count + n
            },
            final(self).stats == (CacheStats {
                eviction_count: final(self).stats.eviction_count,
                size_bytes: final(self).stats.size_bytes,
                items_count: final(self).stats.items_count,
                ..old(self).stats
            }),
    {
        let ghost keep: spec_fn(CacheEntry) -> bool = spec_keep_unmatched(
            spec_opt_view(hotel_id),
            spec_opt_view(check_in),
            spec_opt_view(check_out),
        );
        let ghost orig: Seq<CacheEntry> = self.entries@;
        let orig_len: usize = self.entries.len();
        let mut removed: usize = 0;
        let mut i: usize = 0;
        let mut scanned: usize = 0;
        proof {
            reveal(Seq::filter);
            assert(orig.subrange(0, 0).filter(keep) =~= Seq::<CacheEntry>::empty());
            assert(orig.subrange(0, 0) + orig.subrange(0, orig.len() as int) =~= orig);
        }
        while scanned < self.entries.len() + removed
            invariant
                old(self).inv(),
                keep == spec_keep_unmatched(
                    spec_opt_view(hotel_id),
                    spec_opt_view(check_in),
                    spec_opt_view(check_out),
                ),
                orig == old(self).entries@,
                orig_len == orig.len(),
                0 <= scanned <= orig.len(),
                removed == scanned - i,
                i == orig.subrange(0, scanned as int).filter(keep).len(),
                self.entries@ =~= orig.subrange(0, scanned as int).filter(keep) + orig.subrange(
                    scanned as int,
                    orig.len() as int,
                ),
                self.entries@.len() + removed == orig.len(),
                self.config == old(self).config,
                self.stats == old(self).stats,
            decreases orig.len() - scanned,
        {
            let ghost pre: Seq<CacheEntry> = orig.subrange(0, scanned as int);
            proof {
                assert(self.entries@[i as int] == orig[scanned as int]);
            }
            let matches_h: bool = match hotel_id {
                Some(h) => str_eq(self.entries[i].hotel_id.as_str(), h),
                None => true,
            };
            let matches_ci: bool = match check_in {
                Some(c) => str_eq(self.entries[i].check_in.as_str(), c),
                None => true,
            };
            let matches_co: bool = match check_out {
                Some(c) => str_eq(self.entries[i].check_out.as_str(), c),
                None => true,
            };
            let drop_it = matches_h && matches_ci && matches_co;
            proof {
                reveal(Seq::filter);
                let s1 = orig.subrange(0, scanned + 1);
                assert(s1.drop_last() =~= pre);
                assert(s1.last() == orig[scanned as int]);
                assert(keep(orig[scanned as int]) == !drop_it);
                assert(s1.filter(keep) == if keep(orig[scanned as int]) {
                    pre.filter(keep).push(orig[scanned as int])
                } else {
                    pre.filter(keep)
                });
            }
            if drop_it {
                self.entries.remove(i);
                removed = removed + 1;
                proof {
                    assert(self.entries@ =~= orig.subrange(0, scanned + 1).filter(keep)
                        + orig.subrange(scanned + 1, orig.len() as int));
                }
            } else {
                i = i + 1;
                proof {
                    assert(self.entries@ =~= orig.subrange(0, scanned + 1).filter(keep)
                        + orig.subrange(scanned + 1, orig.len() as int));
                }
            }
            scanned = scanned + 1;
        }
        proof {
            assert(orig.subrange(scanned as int, orig.len() as int) =~= Seq::<
                CacheEntry,
            >::empty());
            assert(orig.subrange(0, scanned as int) =~= orig);
            assert(self.entries@ =~= orig.filter(keep));
            lemma_filter_entries_facts(orig, keep);
            assert(spec_total_size(self.entries@) <= u64::MAX);
        }
        let mut k: usize = 0;
        let ghost mid_entries: Seq<CacheEntry> = self.entries@;
        let ghost mid_config: CacheConfig = self.config;
        let ghost mid_stats: CacheStats = self.stats;
        while k < removed
            invariant
                self.entries@ == mid_entries,
                self.config == mid_config,
                0 <= k <= removed,
                self.stats == (CacheStats {
                    eviction_count: self.stats.eviction_count,
                    ..mid_stats
                }),
                self.stats.eviction_count == if mid_stats.eviction_count + k > u64::MAX {
                    u64::MAX as int
                } else {
                    mid_stats.eviction_count + k
                },
            decreases removed - k,
        {
            self.stats.eviction_count = crate::stats::sat_inc(self.stats.eviction_count);
            k = k + 1;
        }
        let new_size = total_size_of(&self.entries);
        self.stats.size_bytes = new_size;
        self.stats.items_count = self.entries.len() as u64;
        removed
    }

    /// Changes the size budget; when shrinking, evicts under the configured
    /// policy until the contents fit.
    pub fn resize(&mut self, new_max_size_mb: usize) -> (r: bool)
        requires
            old(self).inv(),
        ensures
            final(self).inv(),
            r == true,
            final(self).config.max_size_mb == new_max_size_mb,
            final(self).config.eviction_policy == old(self).config.eviction_policy,
            final(self).config.default_ttl_seconds == old(self).config.default_ttl_seconds,
            spec_total_size(final(self).entries@) <= new_max_size_mb * 1024 * 1024,
            // exactly as many policy-ranked evictions as the new budget forces
            exists|n: nat|
                {
                    &&& final(self).entries@ == #[trigger] spec_after_evict_n(
                        old(self).entries@,
                        old(self).config.eviction_policy,
                        n,
                    )
                    &&& forall|m: nat|
                        m < n ==> spec_total_size(
                            #[trigger] spec_after_evict_n(
                                old(self).entries@,
                                old(self).config.eviction_policy,
                                m,
                            ),
                        ) > new_max_size_mb * 1024 * 1024
                },
    {
        self.config.max_size_mb = new_max_size_mb;
        let max_bytes128: u128 = new_max_size_mb as u128 * 1024 * 1024;
        let ghost orig: Seq<CacheEntry> = self.entries@;
        let ghost policy: EvictionPolicy = self.config.eviction_policy;
        let ghost mut steps: nat = 0;
        proof {
            assert(self.entries@ == spec_after_evict_n(orig, policy, 0));
        }
        while self.stats.size_bytes as u128 > max_bytes128
            invariant
                self.inv(),
                self.config.max_size_mb == new_max_size_mb,
                self.config.eviction_policy == policy,
                self.config.default_ttl_seconds == old(self).config.default_ttl_seconds,
                max_bytes128 == new_max_size_mb as int * 1024 * 1024,
                self.entries@ == spec_after_evict_n(orig, policy, steps),
                forall|m: nat|
                    m < steps ==> spec_total_size(
                        #[trigger] spec_after_evict_n(orig, policy, m),
                    ) > new_max_size_mb * 1024 * 1024,
            decreases self.entries@.len(),
        {
            proof {
                lemma_total_size_nonneg(self.entries@);
                if self.entries@.len() == 0 {
                    assert(spec_total_size(self.entries@) == 0);
                }
            }
            let ghost before: Seq<CacheEntry> = self.entries@;
            self.remove_oldest_entry();
            proof {
                assert(spec_after_evict_n(orig, policy, steps + 1) == spec_after_evict(
                    before,
                    policy,
                ));
                assert forall|m: nat|
                    m < steps + 1 implies spec_total_size(
                    #[trigger] spec_after_evict_n(orig, policy, m),
                ) > new_max_size_mb * 1024 * 1024 by {
                    if m == steps {
                        assert(spec_after_evict_n(orig, policy, m) == before);
                    }
                }
            }
            proof {
                steps = steps + 1;
            }
        }
        true
    }

    /// Folds one measured lookup duration into the running average, using the
    /// lookup count (the duration is measured by the caller around the
    /// lookup).
    pub fn store_lookup_time(&mut self, duration_ns: u64)
        requires
            old(self).inv(),
        ensures
            final(self).inv(),
            final(self).entries@ == old(self).entries@,
            final(self).config == old(self).config,
            old(self).stats.total_lookups <= 1 ==> final(self).stats.average_lookup_time_ns
                == duration_ns,
            old(self).stats.total_lookups > 1 ==> final(self).stats.average_lookup_time_ns == (
            old(self).stats.average_lookup_time_ns * (old(self).stats.total_lookups - 1)
                + duration_ns) / (old(self).stats.total_lookups as int),
    {
        let n: u64 = self.stats.total_lookups;
        if n <= 1 {
            self.stats.average_lookup_time_ns = duration_ns;
        } else {
            let avg = self.stats.average_lookup_time_ns;
            assert(avg as int * (n - 1) <= 0xffff_ffff_ffff_ffff * 0xffff_ffff_ffff_ffff)
                by (nonlinear_arith)
                requires
                    avg <= 0xffff_ffff_ffff_ffffu64,
                    0 <= n - 1 <= 0xffff_ffff_ffff_ffffu64,
            ;
            let total: u128 = avg as u128 * (n as u128 - 1) + duration_ns as u128;
            assert(total as int <= n as int * 0xffff_ffff_ffff_ffff) by (nonlinear_arith)
                requires
                    total as int == avg as int * (n as int - 1) + duration_ns as int,
                    avg <= 0xffff_ffff_ffff_ffffu64,
                    duration_ns <= 0xffff_ffff_ffff_ffffu64,
                    n as int >= 2,
            ;
            let new_avg: u128 = total / n as u128;
            assert(new_avg as int <= 0xffff_ffff_ffff_ffff) by (nonlinear_arith)
                requires
                    total as int <= n as int * 0xffff_ffff_ffff_ffff,
                    new_avg as int == total as int / n as int,
                    n as int >= 1,
            ;
            self.stats.average_lookup_time_ns = new_avg as u64;
        }
    }
}

impl AvailabilityCache for ExampleCache {
    open spec fn cache_inv(&self) -> bool {
        self.inv()
    }

    fn new(config: CacheConfig) -> (r: Self) {
        ExampleCache::new(config)
    }

    fn store(
        &mut self,
        hotel_id: &str,
        check_in: &str,
        check_out: &str,
        data: Vec<u8>,
        ttl_ms: Option<u64>,
        now_ms: u64,
    ) -> (stored: bool) {
        ExampleCache::store(self, hotel_id, check_in, check_out, data, ttl_ms, now_ms)
    }

    fn get(&mut self, hotel_id: &str, check_in: &str, check_out: &str, now_ms: u64) -> (r: Option<
        (Vec<u8>, bool),
    >) {
        ExampleCache::get(self, hotel_id, check_in, check_out, now_ms)
    }

    fn stats(&self) -> CacheStatsReport {
        ExampleCache::stats(self)
    }

    fn set_eviction_policy(&mut self, policy: EvictionPolicy) {
        ExampleCache::set_eviction_policy(self, policy)
    }

    fn prefetch(
        &mut self,
        keys: Vec<(String, String, String)>,
        ttl_ms: Option<u64>,
        now_ms: u64,
    ) -> (n: usize) {
        ExampleCache::prefetch(self, keys, ttl_ms, now_ms)
    }

    fn invalidate(
        &mut self,
        hotel_id: Option<&str>,
        check_in: Option<&str>,
        check_out: Option<&str>,
    ) -> (n: usize) {
        ExampleCache::invalidate(self, hotel_id, check_in, check_out)
    }

    fn resize(&mut self, new_max_size_mb: usize) -> (r: bool) {
        ExampleCache::resize(self, new_max_size_mb)
    }
}

/// What one prefetched key costs in the size budget: its three key parts,
/// two separators, the five-byte placeholder, and the fixed overhead.
pub open spec fn spec_prefetch_item_size(k: (String, String, String)) -> int {
    k.0@.len() + k.1@.len() + k.2@.len() + 2 + 5 + ENTRY_OVERHEAD_BYTES
}

/// The combined size-budget cost of prefetching all the keys.
pub open spec fn spec_prefetch_budget(keys: Seq<(String, String, String)>) -> int
    decreases keys.len(),
{
    if keys.len() == 0 {
        0
    } else {
        spec_prefetch_budget(keys.drop_last()) + spec_prefetch_item_size(keys.last())
    }
}

proof fn lemma_prefetch_budget_prefix(keys: Seq<(String, String, String)>, k: int)
    requires
        0 <= k <= keys.len(),
    ensures
        spec_prefetch_budget(keys.subrange(0, k)) >= 0,
        spec_prefetch_budget(keys.subrange(0, k)) <= spec_prefetch_budget(keys),
    decreases keys.len(),
{
    if k == keys.len() {
        assert(keys.subrange(0, k) =~= keys);
        lemma_prefetch_budget_nonneg(keys);
    } else {
        lemma_prefetch_budget_prefix(keys.drop_last(), k);
        assert(keys.drop_last().subrange(0, k) =~= keys.subrange(0, k));
    }
}

proof fn lemma_prefetch_budget_nonneg(keys: Seq<(String, String, String)>)
    ensures
        spec_prefetch_budget(keys) >= 0,
    decreases keys.len(),
{
    if keys.len() > 0 {
        lemma_prefetch_budget_nonneg(keys.drop_last());
    }
}

/// Keeps the entries that do not match the invalidation pattern.
pub open spec fn spec_keep_unmatched(
    h: Option<Seq<char>>,
    ci: Option<Seq<char>>,
    co: Option<Seq<char>>,
) -> spec_fn(CacheEntry) -> bool {
    |e: CacheEntry|
        !({
            &&& match h {
                Some(s) => e.hotel_id@ == s,
                None => true,
            }
            &&& match ci {
                Some(s) => e.check_in@ == s,
                None => true,
            }
            &&& match co {
                Some(s) => e.check_out@ == s,
                None => true,
            }
        })
}

/// Copies a byte buffer.
fn copy_bytes(v: &Vec<u8>) -> (r: Vec<u8>)
    ensures
        r@ == v@,
{
    let mut out: Vec<u8> = Vec::new();
    let mut i: usize = 0;
    while i < v.len()
        invariant
            0 <= i <= v@.len(),
            out@ == v@.subrange(0, i as int),
        decreases v@.len() - i,
    {
        out.push(v[i]);
        proof {
            assert(out@ =~= v@.subrange(0, i + 1));
        }
        i = i + 1;
    }
    proof {
        assert(out@ =~= v@);
    }
    out
}

/// The summed size of the entries held in a vector.
fn total_size_of(entries: &Vec<CacheEntry>) -> (r: u64)
    requires
        spec_total_size(entries@) <= u64::MAX,
    ensures
        r == spec_total_size(entries@),
{
    proof {
        lemma_total_size_nonneg(entries@);
    }
    let mut acc: u64 = 0;
    let mut i: usize = 0;
    while i < entries.len()
        invariant
            0 <= i <= entries@.len(),
            acc == spec_total_size(entries@.subrange(0, i as int)),
            spec_total_size(entries@) <= u64::MAX,
        decreases entries@.len() - i,
    {
        let ghost pre: Seq<CacheEntry> = entries@.subrange(0, i as int);
        proof {
            assert(entries@.subrange(0, i + 1).drop_last() =~= pre);
            assert(entries@.subrange(0, i + 1).last() == entries@[i as int]);
            lemma_total_size_prefix(entries@, i + 1);
            lemma_total_size_nonneg(pre);
            assert(entries@[i as int].spec_size() <= u64::MAX);
        }
        let es = entry_size(&entries[i]);
        acc = acc + es;
        i = i + 1;
    }
    proof {
        assert(entries@.subrange(0, entries@.len() as int) =~= entries@);
    }
    acc
}

/// A prefix never outweighs the whole.
proof fn lemma_total_size_prefix(s: Seq<CacheEntry>, k: int)
    requires
        0 <= k <= s.len(),
    ensures
        spec_total_size(s.subrange(0, k)) <= spec_total_size(s),
        k > 0 ==> s[k - 1].spec_size() <= spec_total_size(s),
    decreases s.len() - k,
{
    if k == s.len() {
        assert(s.subrange(0, k) =~= s);
        if k > 0 {
            lemma_total_size_nonneg(s.drop_last());
            assert(s.last() == s[k - 1]);
        }
    } else {
        lemma_total_size_prefix(s.subrange(0, s.len() - 1), k);
        assert(s.subrange(0, s.len() - 1) =~= s.drop_last());
        assert(s.drop_last().subrange(0, k) =~= s.subrange(0, k));
        if 0 < k {
            assert(s.drop_last()[k - 1] == s[k - 1]);
        }
        lemma_total_size_nonneg(s);
    }
}

/// Filtering entries keeps key uniqueness and the size bound.
proof fn lemma_filter_entries_facts(s: Seq<CacheEntry>, pred: spec_fn(CacheEntry) -> bool)
    requires
        forall|i: int, j: int|
            0 <= i < j < s.len() ==> !(#[trigger] s[i]).spec_keyed(
                (#[trigger] s[j]).hotel_id@,
                s[j].check_in@,
                s[j].check_out@,
            ),
    ensures
        s.filter(pred).len() <= s.len(),
        spec_total_size(s.filter(pred)) <= spec_total_size(s),
        forall|i: int, j: int|
            0 <= i < j < s.filter(pred).len() ==> !(#[trigger] s.filter(pred)[i]).spec_keyed(
                (#[trigger] s.filter(pred)[j]).hotel_id@,
                s.filter(pred)[j].check_in@,
                s.filter(pred)[j].check_out@,
            ),
    decreases s.len(),
{
    reveal(Seq::filter);
    if s.len() > 0 {
        let dl = s.drop_last();
        lemma_filter_entries_facts(dl, pred);
        lemma_total_size_nonneg(dl);
        if pred(s.last()) {
            assert(s.filter(pred) == dl.filter(pred).push(s.last()));
            assert(dl.filter(pred).push(s.last()).drop_last() =~= dl.filter(pred));
            assert(spec_total_size(s.filter(pred)) == spec_total_size(dl.filter(pred))
                + s.last().spec_size());
            assert forall|i: int, j: int|
                0 <= i < j < s.filter(pred).len() implies !(
            #[trigger] s.filter(pred)[i]).spec_keyed(
                (#[trigger] s.filter(pred)[j]).hotel_id@,
                s.filter(pred)[j].check_in@,
                s.filter(pred)[j].check_out@,
            ) by {
                if j == s.filter(pred).len() - 1 {
                    crate::scheduler::lemma_filter_member(dl, pred, i);
                } else {
                    assert(s.filter(pred)[i] == dl.filter(pred)[i]);
                    assert(s.filter(pred)[j] == dl.filter(pred)[j]);
                }
            }
        }
    }
}

/// Replacing one entry by one of equal size keeps the total.
proof fn lemma_total_size_update_same(pre: Seq<CacheEntry>, post: Seq<CacheEntry>, i: int)
    requires
        0 <= i < pre.len(),
        post.len() == pre.len(),
        forall|k: int| 0 <= k < pre.len() && k != i ==> post[k] == pre[k],
        post[i].spec_size() == pre[i].spec_size(),
    ensures
        spec_total_size(post) == spec_total_size(pre),
    decreases pre.len(),
{
    if i == pre.len() - 1 {
        assert(post.drop_last() =~= pre.drop_last());
    } else {
        lemma_total_size_update_same(pre.drop_last(), post.drop_last(), i);
        assert(post.last() == pre.last());
    }
}

/// Removing any one entry keeps key uniqueness.
proof fn lemma_unique_after_remove(s: Seq<CacheEntry>, i: int)
    requires
        0 <= i < s.len(),
        forall|a: int, b: int|
            0 <= a < b < s.len() ==> !(#[trigger] s[a]).spec_keyed(
                (#[trigger] s[b]).hotel_id@,
                s[b].check_in@,
                s[b].check_out@,
            ),
    ensures
        forall|a: int, b: int|
            0 <= a < b < s.remove(i).len() ==> !(#[trigger] s.remove(i)[a]).spec_keyed(
                (#[trigger] s.remove(i)[b]).hotel_id@,
                s.remove(i)[b].check_in@,
                s.remove(i)[b].check_out@,
            ),
{
    let post = s.remove(i);
    assert forall|a: int, b: int|
        0 <= a < b < post.len() implies !(#[trigger] post[a]).spec_keyed(
        (#[trigger] post[b]).hotel_id@,
        post[b].check_in@,
        post[b].check_out@,
    ) by {
        let a0 = if a < i {
            a
        } else {
            a + 1
        };
        let b0 = if b < i {
            b
        } else {
            b + 1
        };
        assert(post[a] == s[a0]);
        assert(post[b] == s[b0]);
    }
}

/// Removing a key leaves a smaller store, still unique, with no entry under
/// that key.
proof fn lemma_after_remove_key_facts(
    s: Seq<CacheEntry>,
    h: Seq<char>,
    ci: Seq<char>,
    co: Seq<char>,
)
    requires
        forall|a: int, b: int|
            0 <= a < b < s.len() ==> !(#[trigger] s[a]).spec_keyed(
                (#[trigger] s[b]).hotel_id@,
                s[b].check_in@,
                s[b].check_out@,
            ),
    ensures
        spec_total_size(spec_after_remove_key(s, h, ci, co)) <= spec_total_size(s),
        spec_after_remove_key(s, h, ci, co).len() <= s.len(),
        forall|k: int|
            0 <= k < spec_after_remove_key(s, h, ci, co).len() ==> !(#[trigger] spec_after_remove_key(
                s,
                h,
                ci,
                co,
            )[k]).spec_keyed(h, ci, co),
        forall|a: int, b: int|
            0 <= a < b < spec_after_remove_key(s, h, ci, co).len() ==> !(
            #[trigger] spec_after_remove_key(s, h, ci, co)[a]).spec_keyed(
                (#[trigger] spec_after_remove_key(s, h, ci, co)[b]).hotel_id@,
                spec_after_remove_key(s, h, ci, co)[b].check_in@,
                spec_after_remove_key(s, h, ci, co)[b].check_out@,
            ),
{
    lemma_total_size_nonneg(s);
    if spec_has_key(s, h, ci, co) {
        lemma_exists_first_key(s, h, ci, co);
        let i = spec_first_key_idx(s, h, ci, co);
        assert(spec_is_first_key(s, h, ci, co, i));
        lemma_total_size_remove(s, i);
        lemma_total_size_nonneg(s.remove(i));
        lemma_unique_after_remove(s, i);
        let post = s.remove(i);
        assert forall|k: int| 0 <= k < post.len() implies !(#[trigger] post[k]).spec_keyed(
            h,
            ci,
            co,
        ) by {
            if k < i {
                assert(post[k] == s[k]);
            } else {
                assert(post[k] == s[k + 1]);
                if post[k].spec_keyed(h, ci, co) {
                    assert(s[i].spec_keyed(
                        s[k + 1].hotel_id@,
                        s[k + 1].check_in@,
                        s[k + 1].check_out@,
                    ));
                }
            }
        }
    } else {
        assert forall|k: int| 0 <= k < s.len() implies !(#[trigger] s[k]).spec_keyed(
            h,
            ci,
            co,
        ) by {
            if s[k].spec_keyed(h, ci, co) {
                assert(spec_has_key(s, h, ci, co));
            }
        }
    }
}

/// Evicting leaves a smaller store, still unique; absent keys stay absent.
proof fn lemma_after_evict_facts(s: Seq<CacheEntry>, policy: EvictionPolicy)
    requires
        forall|a: int, b: int|
            0 <= a < b < s.len() ==> !(#[trigger] s[a]).spec_keyed(
                (#[trigger] s[b]).hotel_id@,
                s[b].check_in@,
                s[b].check_out@,
            ),
    ensures
        spec_total_size(spec_after_evict(s, policy)) <= spec_total_size(s),
        spec_after_evict(s, policy).len() <= s.len(),
        forall|a: int, b: int|
            0 <= a < b < spec_after_evict(s, policy).len() ==> !(#[trigger] spec_after_evict(
                s,
                policy,
            )[a]).spec_keyed(
                (#[trigger] spec_after_evict(s, policy)[b]).hotel_id@,
                spec_after_evict(s, policy)[b].check_in@,
                spec_after_evict(s, policy)[b].check_out@,
            ),
{
    lemma_total_size_nonneg(s);
    if s.len() > 0 {
        lemma_exists_first_min(s, policy);
        let i = spec_first_min_idx(s, policy);
        lemma_total_size_remove(s, i);
        lemma_total_size_nonneg(s.remove(i));
        lemma_unique_after_remove(s, i);
    }
}

/// A store holding a key has a first entry under it.
proof fn lemma_exists_first_key(s: Seq<CacheEntry>, h: Seq<char>, ci: Seq<char>, co: Seq<char>)
    requires
        spec_has_key(s, h, ci, co),
    ensures
        spec_is_first_key(s, h, ci, co, spec_first_key_idx(s, h, ci, co)),
    decreases s.len(),
{
    if s[0].spec_keyed(h, ci, co) {
        assert(spec_is_first_key(s, h, ci, co, 0));
    } else {
        let df = s.drop_first();
        assert(forall|j: int| 0 <= j < df.len() ==> #[trigger] df[j] == s[j + 1]);
        let w = choose|w: int| 0 <= w < s.len() && (#[trigger] s[w]).spec_keyed(h, ci, co);
        assert(df[w - 1].spec_keyed(h, ci, co));
        assert(spec_has_key(df, h, ci, co));
        lemma_exists_first_key(df, h, ci, co);
        let i = spec_first_key_idx(df, h, ci, co);
        assert(s[i + 1].spec_keyed(h, ci, co));
        assert forall|j: int| 0 <= j < i + 1 implies !(#[trigger] s[j]).spec_keyed(h, ci, co) by {
            if j >= 1 {
                assert(s[j] == df[j - 1]);
            }
        }
        assert(spec_is_first_key(s, h, ci, co, i + 1));
    }
}

/// Every nonempty store has a first entry of minimal metric.
proof fn lemma_exists_first_min(s: Seq<CacheEntry>, policy: EvictionPolicy)
    requires
        s.len() > 0,
    ensures
        spec_is_first_min(s, policy, spec_first_min_idx(s, policy)),
    decreases s.len(),
{
    if s.len() == 1 {
        assert(spec_is_first_min(s, policy, 0));
    } else {
        let dl = s.drop_last();
        assert(forall|j: int| 0 <= j < dl.len() ==> #[trigger] dl[j] == s[j]);
        lemma_exists_first_min(dl, policy);
        let i = spec_first_min_idx(dl, policy);
        assert(spec_is_first_min(dl, policy, i));
        if s.last().spec_metric(policy) < dl[i].spec_metric(policy) {
            assert forall|j: int|
                0 <= j < s.len() implies (#[trigger] s[j]).spec_metric(policy) >= s[s.len()
                - 1].spec_metric(policy) by {
                if j < s.len() - 1 {
                    assert(s[j] == dl[j]);
                }
            }
            assert forall|j: int|
                0 <= j < s.len() - 1 implies (#[trigger] s[j]).spec_metric(policy) > s[s.len()
                - 1].spec_metric(policy) by {
                assert(s[j] == dl[j]);
            }
            assert(spec_is_first_min(s, policy, s.len() - 1));
        } else {
            assert forall|j: int|
                0 <= j < s.len() implies (#[trigger] s[j]).spec_metric(policy) >= s[
                i
            ].spec_metric(policy) by {
                if j < s.len() - 1 {
                    assert(s[j] == dl[j]);
                }
            }
            assert forall|j: int|
                0 <= j < i implies (#[trigger] s[j]).spec_metric(policy) > s[i].spec_metric(
                policy,
            ) by {
                assert(s[j] == dl[j]);
            }
            assert(spec_is_first_min(s, policy, i));
        }
    }
}

/// Evicting from a store with no entry under a key leaves the key absent.
proof fn lemma_no_key_after_evict(
    s: Seq<CacheEntry>,
    policy: EvictionPolicy,
    h: Seq<char>,
    ci: Seq<char>,
    co: Seq<char>,
)
    requires
        forall|k: int| 0 <= k < s.len() ==> !(#[trigger] s[k]).spec_keyed(h, ci, co),
    ensures
        forall|k: int|
            0 <= k < spec_after_evict(s, policy).len() ==> !(#[trigger] spec_after_evict(
                s,
                policy,
            )[k]).spec_keyed(h, ci, co),
{
    if s.len() > 0 {
        lemma_exists_first_min(s, policy);
        let i = spec_first_min_idx(s, policy);
        let post = s.remove(i);
        assert forall|k: int| 0 <= k < post.len() implies !(#[trigger] post[k]).spec_keyed(
            h,
            ci,
            co,
        ) by {
            if k < i {
                assert(post[k] == s[k]);
            } else {
                assert(post[k] == s[k + 1]);
            }
        }
    }
}

/// Saturating increment, as a spec shorthand for counter updates.
pub open spec fn sat_add1(x: u64) -> int {
    if x == u64::MAX {
        x as int
    } else {
        x + 1
    }
}

/// The size an entry counts for, bounded to fit the gauges.
fn entry_size(e: &CacheEntry) -> (r: u64)
    requires
        e.spec_size() <= u64::MAX,
    ensures
        r == e.spec_size(),
{
    let klen: usize = e.hotel_id.unicode_len();
    let cilen: usize = e.check_in.unicode_len();
    let colen: usize = e.check_out.unicode_len();
    klen as u64 + cilen as u64 + colen as u64 + 2 + e.data.len() as u64
        + ENTRY_OVERHEAD_BYTES as u64
}

} // verus!
