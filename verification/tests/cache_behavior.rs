// Tests for the availability cache: TTL expiry, eviction, prefetch,
// invalidation, and resizing. The clock is supplied in milliseconds.

use booking_client::cache::{CacheConfig, EvictionPolicy, ExampleCache};
use booking_client::cache::{calculate_item_size, create_cache_key};

#[test]
fn test_expiration_and_ttl() {
    let config = CacheConfig {
        max_size_mb: 5,
        default_ttl_seconds: 5,
        cleanup_interval_seconds: 1,
        shards_count: 4,
        eviction_policy: EvictionPolicy::LeastRecentlyUsed,
    };
    let mut cache = ExampleCache::new(config);

    let hotel_id = "hotel123";
    let check_in = "2025-06-01";
    let check_out = "2025-06-05";
    let data = vec![1u8, 2, 3, 4, 5];

    // default TTL (5 s), and a custom 2 s TTL
    assert!(cache.store(hotel_id, check_in, check_out, data.clone(), None, 0));
    let hotel_id2 = "hotel456";
    assert!(cache.store(hotel_id2, check_in, check_out, data.clone(), Some(2_000), 0));

    // both initially available
    assert!(cache.get(hotel_id, check_in, check_out, 1).is_some());
    assert!(cache.get(hotel_id2, check_in, check_out, 1).is_some());

    // 3 s in: the shorter TTL has expired, the default one has not
    assert!(cache.get(hotel_id, check_in, check_out, 3_000).is_some());
    assert!(cache.get(hotel_id2, check_in, check_out, 3_000).is_none());

    // 6 s in: both expired
    assert!(cache.get(hotel_id, check_in, check_out, 6_000).is_none());
    assert!(cache.get(hotel_id2, check_in, check_out, 6_000).is_none());

    let stats = cache.stats();
    assert!(stats.expired_count >= 2, "Expected at least 2 expired items");
}

#[test]
fn test_eviction_policy_lru() {
    let config = CacheConfig {
        max_size_mb: 1,
        default_ttl_seconds: 3600,
        cleanup_interval_seconds: 60,
        shards_count: 2,
        eviction_policy: EvictionPolicy::LeastRecentlyUsed,
    };
    let mut cache = ExampleCache::new(config);
    cache.set_eviction_policy(EvictionPolicy::LeastRecentlyUsed);

    // four 250 KB items fill the 1 MB budget
    let large_data = vec![0u8; 250 * 1024];
    for i in 0..4 {
        let hotel_id = format!("hotel{}", i);
        assert!(cache.store(&hotel_id, "2025-06-01", "2025-06-05", large_data.clone(), None, 0));
    }

    // touch item 0 and 2 so they are recently used
    assert!(cache.get("hotel0", "2025-06-01", "2025-06-05", 10).is_some());
    assert!(cache.get("hotel2", "2025-06-01", "2025-06-05", 11).is_some());

    // a fifth item forces an eviction of a least-used entry
    assert!(cache.store("hotel4", "2025-06-01", "2025-06-05", large_data.clone(), None, 20));

    assert!(cache.get("hotel0", "2025-06-01", "2025-06-05", 30).is_some());
    assert!(cache.get("hotel2", "2025-06-01", "2025-06-05", 31).is_some());

    let evicted = cache.get("hotel1", "2025-06-01", "2025-06-05", 32).is_none() || cache.get(
        "hotel3",
        "2025-06-01",
        "2025-06-05",
        33,
    ).is_none();
    assert!(evicted, "Expected LRU eviction to remove hotel1 or hotel3");

    let stats = cache.stats();
    assert!(stats.eviction_count > 0, "Expected evictions to occur");
}

#[test]
fn test_prefetch_and_invalidate() {
    let config = CacheConfig::default();
    let mut cache = ExampleCache::new(config);

    let keys = vec![
        ("hotel1".to_string(), "2025-06-01".to_string(), "2025-06-05".to_string()),
        ("hotel1".to_string(), "2025-06-10".to_string(), "2025-06-15".to_string()),
        ("hotel2".to_string(), "2025-06-01".to_string(), "2025-06-05".to_string()),
    ];

    for (hotel, check_in, check_out) in &keys {
        let data = vec![1u8, 2, 3, 4, 5];
        cache.store(hotel, check_in, check_out, data, None, 0);
    }

    let invalidated = cache.invalidate(Some("hotel1"), None, None);
    assert_eq!(invalidated, 2, "Expected 2 items to be invalidated");

    assert!(cache.get("hotel1", "2025-06-01", "2025-06-05", 1).is_none());
    assert!(cache.get("hotel1", "2025-06-10", "2025-06-15", 1).is_none());
    assert!(cache.get("hotel2", "2025-06-01", "2025-06-05", 1).is_some());

    let prefetched = cache.prefetch(keys, None, 2);
    assert_eq!(prefetched, 3, "Expected 3 items to be prefetched");

    assert!(cache.get("hotel1", "2025-06-01", "2025-06-05", 3).is_some());
    assert!(cache.get("hotel1", "2025-06-10", "2025-06-15", 3).is_some());
    assert!(cache.get("hotel2", "2025-06-01", "2025-06-05", 3).is_some());
}

#[test]
fn test_cache_resize() {
    let config = CacheConfig {
        max_size_mb: 10,
        default_ttl_seconds: 300,
        cleanup_interval_seconds: 60,
        shards_count: 4,
        eviction_policy: EvictionPolicy::LeastRecentlyUsed,
    };
    let mut cache = ExampleCache::new(config);

    let medium_data = vec![0u8; 100 * 1024];
    for i in 0..50 {
        let hotel_id = format!("hotel{}", i);
        cache.store(&hotel_id, "2025-06-01", "2025-06-05", medium_data.clone(), None, 0);
    }

    // shrink: items are evicted until the contents fit 2 MB
    assert!(cache.resize(2));
    let stats = cache.stats();
    assert!(
        stats.size_bytes <= 2 * 1024 * 1024,
        "Cache size exceeds 2MB after resizing: {}",
        stats.size_bytes
    );
    assert!(stats.items_count < 50, "Expected some items to be evicted after resizing");

    // grow and refill
    assert!(cache.resize(20));
    for i in 50..150 {
        let hotel_id = format!("hotel{}", i);
        cache.store(&hotel_id, "2025-06-01", "2025-06-05", medium_data.clone(), None, 1);
    }
    let new_stats = cache.stats();
    assert!(
        new_stats.items_count > stats.items_count,
        "Cache should accommodate more items after upsizing"
    );
}

#[test]
fn expired_lookup_counts_expiry_and_eviction() {
    let mut cache = ExampleCache::new(CacheConfig::default());
    assert!(cache.store("h", "ci", "co", vec![1u8], Some(100), 0));
    assert!(cache.get("h", "ci", "co", 200).is_none());
    let stats = cache.stats();
    assert_eq!(stats.expired_count, 1);
    assert_eq!(stats.eviction_count, 1);
    assert_eq!(stats.miss_count, 0);
    assert_eq!(stats.items_count, 0);
}

#[test]
fn cache_hits_and_misses_are_counted() {
    let mut cache = ExampleCache::new(CacheConfig::default());
    assert!(cache.store("h", "ci", "co", vec![9u8], None, 0));
    assert!(cache.get("h", "ci", "co", 1).is_some());
    assert!(cache.get("absent", "ci", "co", 1).is_none());
    let stats = cache.stats();
    assert_eq!(stats.hit_count, 1);
    assert_eq!(stats.miss_count, 1);
    assert_eq!(stats.total_lookups, 2);
    assert_eq!(stats.items_count, 1);
}

#[test]
fn storing_same_key_replaces() {
    let mut cache = ExampleCache::new(CacheConfig::default());
    assert!(cache.store("h", "ci", "co", vec![1u8], None, 0));
    assert!(cache.store("h", "ci", "co", vec![2u8, 3u8], None, 1));
    let (data, hit) = cache.get("h", "ci", "co", 2).unwrap();
    assert!(hit);
    assert_eq!(data, vec![2u8, 3u8]);
    assert_eq!(cache.stats().items_count, 1);
}

#[test]
fn lookup_time_average_tracks_measurements() {
    let mut cache = ExampleCache::new(CacheConfig::default());
    assert!(cache.store("h", "ci", "co", vec![1u8], None, 0));
    cache.get("h", "ci", "co", 1);
    cache.store_lookup_time(1_000);
    cache.get("h", "ci", "co", 2);
    cache.store_lookup_time(3_000);
    assert_eq!(cache.stats().average_lookup_time_ns, 2_000);
}

#[test]
fn key_and_size_helpers() {
    assert_eq!(create_cache_key("hotel1", "2025-06-01", "2025-06-05"), "hotel1:2025-06-01:2025-06-05");
    let key = "hotel1:2025-06-01:2025-06-05";
    assert_eq!(calculate_item_size(key, &[1u8, 2, 3]), key.len() + 3 + 16);
}
