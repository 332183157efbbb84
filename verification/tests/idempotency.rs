use kce::idempotency::IdempotencyCache;
use std::time::Duration;

#[test]
fn repeated_request_within_ttl_hits() {
    let mut c: IdempotencyCache<String> = IdempotencyCache::new(4, Duration::from_nanos(100));
    c.insert_at(7, "answer".to_string(), 1000);
    assert_eq!(c.get_at(7, 1099), Some("answer".to_string()));
    assert_eq!(c.get_at(8, 1000), None);
}

#[test]
fn expired_entry_misses_and_is_dropped() {
    let mut c: IdempotencyCache<u32> = IdempotencyCache::new(4, Duration::from_nanos(100));
    c.insert_at(7, 1, 1000);
    assert_eq!(c.get_at(7, 1100), None);
    // Gone for good, even at an earlier time.
    assert_eq!(c.get_at(7, 1000), None);
}

#[test]
fn full_cache_drops_least_recently_used() {
    let mut c: IdempotencyCache<u32> = IdempotencyCache::new(2, Duration::from_secs(60));
    c.insert_at(1, 10, 0);
    c.insert_at(2, 20, 0);
    // Touch 1, so 2 is now the least recently used.
    assert_eq!(c.get_at(1, 1), Some(10));
    c.insert_at(3, 30, 2);
    assert_eq!(c.get_at(2, 3), None);
    assert_eq!(c.get_at(1, 3), Some(10));
    assert_eq!(c.get_at(3, 3), Some(30));
}

#[test]
fn zero_capacity_keeps_one() {
    let mut c: IdempotencyCache<u32> = IdempotencyCache::new(0, Duration::from_secs(60));
    c.insert_at(1, 10, 0);
    c.insert_at(2, 20, 0);
    assert_eq!(c.get_at(1, 0), None);
    assert_eq!(c.get_at(2, 0), Some(20));
}

#[test]
fn evict_expired_keeps_live() {
    let mut c: IdempotencyCache<u32> = IdempotencyCache::new(8, Duration::from_nanos(50));
    c.insert_at(1, 10, 0);
    c.insert_at(2, 20, 40);
    c.evict_expired_at(60);
    assert_eq!(c.get_at(1, 0), None);
    assert_eq!(c.get_at(2, 60), Some(20));
}

#[test]
fn idempotency_clock_forms_run() {
    let mut c: IdempotencyCache<u32> = IdempotencyCache::new(8, Duration::from_secs(300));
    c.insert(5, 55);
    c.evict_expired();
    assert_eq!(c.get(5), Some(55));
}
