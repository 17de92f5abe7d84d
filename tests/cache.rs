use std::time::Duration;
use ttl_cache::{Cache, CacheResult, CacheStats};

const SECOND: u128 = 1_000_000_000;

#[test]
fn test_cache_insert_and_get() {
    let mut cache = Cache::new(Duration::from_secs(60), 100);
    cache.insert("key1", "value1");

    match cache.get(&"key1") {
        CacheResult::Hit(val) => assert_eq!(val, "value1"),
        _ => panic!("Expected cache hit"),
    }
}

#[test]
fn get_within_ttl_returns_inserted_value() {
    let mut cache: Cache<u64, String> = Cache::new(Duration::from_secs(60), 10);
    cache.insert_with_ttl_at(7, String::from("seven"), 5 * SECOND, 0);
    match cache.get_at(&7, 5 * SECOND) {
        CacheResult::Hit(v) => assert_eq!(v, "seven"),
        _ => panic!("expected a hit"),
    }
    assert_eq!(cache.stats().hits(), 1);
    assert_eq!(cache.stats().misses(), 0);
    assert_eq!(cache.size(), 1);
}

#[test]
fn get_after_ttl_expires_once_then_misses() {
    let mut cache: Cache<u64, u64> = Cache::new(Duration::from_secs(60), 10);
    cache.insert_with_ttl_at(1, 100, 5 * SECOND, 10);
    assert!(matches!(cache.get_at(&1, 10 + 5 * SECOND + 1), CacheResult::Expired));
    assert_eq!(cache.size(), 0);
    assert!(matches!(cache.get_at(&1, 10 + 5 * SECOND + 2), CacheResult::Miss));
    let s = cache.stats();
    assert_eq!(s.expirations(), 1);
    assert_eq!(s.misses(), 2);
    assert_eq!(s.hits(), 0);
}

#[test]
fn get_of_absent_key_misses() {
    let mut cache: Cache<u64, u64> = Cache::new(Duration::from_secs(60), 10);
    assert!(matches!(cache.get_at(&3, 0), CacheResult::Miss));
    assert!(matches!(cache.get(&3), CacheResult::Miss));
    assert_eq!(cache.stats().misses(), 2);
    assert_eq!(cache.stats().expirations(), 0);
}

#[test]
fn full_cache_evicts_one_for_new_key() {
    let mut cache: Cache<u64, u64> = Cache::new(Duration::from_secs(60), 3);
    for k in 0..3u64 {
        cache.insert_with_ttl_at(k, k * 10, 60 * SECOND, 0);
        assert!(cache.size() <= 3);
    }
    assert_eq!(cache.size(), 3);
    assert_eq!(cache.stats().evictions(), 0);
    cache.insert_with_ttl_at(3, 30, 60 * SECOND, 0);
    assert_eq!(cache.size(), 3);
    assert_eq!(cache.stats().evictions(), 1);
    assert!(matches!(cache.get_at(&3, 1), CacheResult::Hit(30)));
    for k in 4..20u64 {
        cache.insert_with_ttl_at(k, k, 60 * SECOND, 0);
        assert!(cache.size() <= 3);
    }
    assert_eq!(cache.stats().evictions(), 17);
}

#[test]
fn overwrite_at_capacity_does_not_evict() {
    let mut cache: Cache<u64, u64> = Cache::new(Duration::from_secs(60), 2);
    cache.insert_with_ttl_at(1, 1, 60 * SECOND, 0);
    cache.insert_with_ttl_at(2, 2, 60 * SECOND, 0);
    cache.insert_with_ttl_at(2, 22, 60 * SECOND, 1);
    assert_eq!(cache.size(), 2);
    assert_eq!(cache.stats().evictions(), 0);
    assert!(matches!(cache.get_at(&2, 2), CacheResult::Hit(22)));
    assert!(matches!(cache.get_at(&1, 2), CacheResult::Hit(1)));
}

#[test]
fn zero_capacity_holds_one_entry() {
    let mut cache: Cache<u64, u64> = Cache::new(Duration::from_secs(60), 0);
    cache.insert_with_ttl_at(1, 1, 60 * SECOND, 0);
    assert_eq!(cache.size(), 1);
    assert_eq!(cache.stats().evictions(), 0);
    cache.insert_with_ttl_at(2, 2, 60 * SECOND, 0);
    assert_eq!(cache.size(), 1);
    assert_eq!(cache.stats().evictions(), 1);
    assert!(matches!(cache.get_at(&2, 0), CacheResult::Hit(2)));
    assert!(matches!(cache.get_at(&1, 0), CacheResult::Miss));
}

#[test]
fn counters_never_decrease() {
    let mut cache: Cache<u64, u64> = Cache::new(Duration::from_secs(60), 2);
    let mut last = cache.stats();
    let mut check = |now: CacheStats, last: &mut CacheStats| {
        assert!(now.hits() >= last.hits());
        assert!(now.misses() >= last.misses());
        assert!(now.evictions() >= last.evictions());
        assert!(now.expirations() >= last.expirations());
        *last = now;
    };
    for k in 0..6u64 {
        let t = k as u128 * SECOND;
        cache.insert_with_ttl_at(k, k, SECOND, t);
        check(cache.stats(), &mut last);
        let _ = cache.get_at(&k, t);
        check(cache.stats(), &mut last);
        let _ = cache.get_at(&(k + 100), t);
        check(cache.stats(), &mut last);
        let _ = cache.remove(&k);
        check(cache.stats(), &mut last);
        cache.insert_with_ttl_at(k, k, 0, t);
        let _ = cache.sweep_expired_at(t + 1);
        check(cache.stats(), &mut last);
        cache.clear();
        check(cache.stats(), &mut last);
    }
    assert_eq!(last.hits(), 6);
    assert_eq!(last.misses(), 6);
    assert_eq!(last.expirations(), 6);
}

#[test]
fn hit_rate_counts() {
    let mut cache: Cache<u64, u64> = Cache::new(Duration::from_secs(60), 10);
    let fresh = cache.stats();
    assert_eq!(fresh.lookups(), 0);
    assert_eq!(fresh, CacheStats::default());
    cache.insert_with_ttl_at(1, 1, 60 * SECOND, 0);
    for _ in 0..3 {
        assert!(matches!(cache.get_at(&1, 0), CacheResult::Hit(1)));
    }
    assert!(matches!(cache.get_at(&2, 0), CacheResult::Miss));
    let s = cache.stats();
    assert_eq!(s.hits(), 3);
    assert_eq!(s.lookups(), 4);
    assert_eq!(s.hits() as f64 / s.lookups() as f64, 0.75);
}

#[test]
fn sweep_removes_unread_stale_entry() {
    let mut cache: Cache<u64, u64> = Cache::new(Duration::from_secs(60), 10);
    cache.insert_with_ttl_at(1, 1, SECOND, 0);
    cache.insert_with_ttl_at(2, 2, 600 * SECOND, 0);
    let removed = cache.sweep_expired_at(ttl_cache::cache::SWEEP_INTERVAL_NANOS);
    assert_eq!(removed, 1);
    assert_eq!(cache.size(), 1);
    let s = cache.stats();
    assert_eq!(s.expirations(), 1);
    assert_eq!(s.misses(), 0);
    assert!(matches!(cache.get_at(&1, 0), CacheResult::Miss));
    assert!(matches!(cache.get_at(&2, 0), CacheResult::Hit(2)));
}

#[test]
fn sweep_keeps_fresh_entries() {
    let mut cache: Cache<u64, u64> = Cache::new(Duration::from_secs(60), 10);
    cache.insert_with_ttl_at(1, 1, 10 * SECOND, 0);
    assert_eq!(cache.sweep_expired_at(10 * SECOND), 0);
    assert_eq!(cache.size(), 1);
    assert_eq!(cache.sweep_expired(), 0);
    assert_eq!(cache.stats().expirations(), 0);
}

#[test]
fn distinct_inserts_fill_without_eviction() {
    let n: u64 = 64;
    let mut cache: Cache<u64, u64> = Cache::new(Duration::from_secs(60), n as usize);
    for k in 0..n {
        cache.insert(k, k * 2);
    }
    assert_eq!(cache.size(), n as usize);
    assert_eq!(cache.stats().evictions(), 0);
    for k in 0..n {
        assert!(matches!(cache.get(&k), CacheResult::Hit(v) if v == k * 2));
    }
}

#[test]
fn remove_ignores_staleness() {
    let mut cache: Cache<u64, u64> = Cache::new(Duration::from_secs(60), 10);
    cache.insert_with_ttl_at(1, 11, SECOND, 0);
    assert_eq!(cache.remove(&1), Some(11));
    assert_eq!(cache.remove(&1), None);
    assert_eq!(cache.size(), 0);
    assert_eq!(cache.stats(), CacheStats::new());
}

#[test]
fn stale_entry_counts_in_size_until_dropped() {
    let mut cache: Cache<u64, u64> = Cache::new(Duration::from_secs(60), 10);
    cache.insert_with_ttl_at(1, 1, SECOND, 0);
    cache.insert_with_ttl_at(2, 2, SECOND, 0);
    assert_eq!(cache.size(), 2);
    assert!(matches!(cache.get_at(&1, 3 * SECOND), CacheResult::Expired));
    assert_eq!(cache.size(), 1);
    cache.clear();
    assert_eq!(cache.size(), 0);
}

#[test]
fn default_ttl_is_read_in_nanoseconds() {
    let cache: Cache<u64, u64> = Cache::new(Duration::from_secs(60), 5);
    assert_eq!(cache.default_ttl(), 60 * SECOND);
    assert_eq!(cache.max_size(), 5);
    let mut other: Cache<u64, u64> = Cache::new(Duration::from_millis(1500), 5);
    assert_eq!(other.default_ttl(), 1_500_000_000);
    other.insert_with_ttl(1, 1, Duration::from_secs(3600));
    assert!(matches!(other.get(&1), CacheResult::Hit(1)));
}

#[test]
fn clock_moves_forward() {
    let cache: Cache<u64, u64> = Cache::new(Duration::from_secs(60), 5);
    let a = cache.now();
    let b = cache.now();
    assert!(b >= a);
    assert!(a < 60 * SECOND);
}

#[test]
fn with_ttl_nanos_keeps_default() {
    let mut cache: Cache<&str, &str> = Cache::with_ttl_nanos(60 * SECOND, 100);
    assert_eq!(cache.default_ttl(), 60 * SECOND);
    assert_eq!(cache.max_size(), 100);
    cache.insert_at("key1", "value1", 0);
    assert!(matches!(cache.get_at(&"key1", 60 * SECOND), CacheResult::Hit("value1")));
    cache.insert_at("key2", "value2", 0);
    assert!(matches!(cache.get_at(&"key2", 60 * SECOND + 1), CacheResult::Expired));
}

#[test]
fn distinct_inserts_past_capacity_evict_the_excess() {
    let m: usize = 4;
    let mut cache: Cache<u64, u64> = Cache::with_ttl_nanos(60 * SECOND, m);
    for k in 0..10u64 {
        cache.insert_at(k, k, 0);
        assert!(cache.size() <= m);
        let n = k as usize + 1;
        assert_eq!(cache.size(), n.min(m));
        assert_eq!(cache.stats().evictions(), n.saturating_sub(m) as u64);
    }
}
