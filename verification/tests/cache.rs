use kce::cache::{CacheEntry, L1Cache, L3Cache};
use std::time::Duration;

#[test]
fn l1_hit_and_miss() {
    let mut c: L1Cache<Vec<u64>> = L1Cache::new(16, Duration::from_secs(60));
    c.insert_at(42, vec![1, 2, 3], 0);
    assert_eq!(c.get_at(42, 1), Some(vec![1, 2, 3]));
    assert_eq!(c.get_at(99, 1), None);
    let s = c.stats();
    assert_eq!((s.hits, s.misses, s.size, s.capacity), (1, 1, 1, 16));
}

#[test]
fn l1_expiry_and_oldest_eviction() {
    let mut c: L1Cache<u32> = L1Cache::new(2, Duration::from_nanos(100));
    c.insert_at(1, 10, 0);
    c.insert_at(2, 20, 50);
    c.insert_at(3, 30, 60); // full: the oldest (1) goes
    assert_eq!(c.get_at(1, 61), None);
    assert_eq!(c.get_at(2, 61), Some(20));
    assert_eq!(c.get_at(2, 150), None); // expired
    c.evict_oldest();
    assert_eq!(c.stats().size, 0);
}

#[test]
fn l3_topk_and_lru_eviction() {
    let mut c = L3Cache::new(2, Duration::from_secs(60));
    c.insert_at(10, vec![1, 2, 3, 4, 5], 0);
    assert_eq!(c.get_at(10, 1), Some(vec![1, 2, 3, 4, 5]));
    assert_eq!(c.get_at(11, 1), None);
    c.insert_at(11, vec![9], 2);
    c.insert_at(12, vec![8], 3); // full: 11, never read, goes
    assert_eq!(c.get_at(11, 4), None);
    assert_eq!(c.get_at(10, 4), Some(vec![1, 2, 3, 4, 5]));
    c.evict_expired_at(u64::MAX);
    assert_eq!(c.stats().size, 0);
}

#[test]
fn entry_expiry_boundary() {
    let e = CacheEntry { value: 1u8, inserted_at: 100, access_count: 0 };
    assert!(!e.is_expired(50, 149));
    assert!(e.is_expired(50, 150));
    assert!(!e.is_expired(50, 10));
}
