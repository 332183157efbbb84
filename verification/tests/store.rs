use kce::page::PageConfig;
use kce::store::{PageStore, WalEntry};

#[test]
fn write_then_read() {
    let mut s = PageStore::new(PageConfig::default());
    s.apply_entry(&WalEntry::insert(b"key", b"value"));
    assert_eq!(s.read(b"key").unwrap(), Some(b"value".to_vec()));
    assert_eq!(s.read(b"other").unwrap(), None);
    assert_eq!(s.page_count(), 1);
    // A second write under the same key wins.
    s.apply_entry(&WalEntry::insert(b"key", b"v2"));
    assert_eq!(s.read(b"key").unwrap(), Some(b"v2".to_vec()));
    assert_eq!(s.page_count(), 2);
}

#[test]
fn replay_skips_corrupted_entries() {
    let good = WalEntry::insert(b"a", b"1");
    let mut bad = WalEntry::insert(b"b", b"2");
    bad.checksum ^= 1;
    let entries = vec![good, bad];
    let mut s = PageStore::new(PageConfig::default());
    let report = s.recover_from(&entries);
    assert_eq!(report.wal_entries_replayed, 2);
    assert_eq!(report.pages_recovered, 1);
    assert_eq!(report.checksum_failures, 0);
    assert!(report.data_integrity_valid);
    assert_eq!(s.read(b"a").unwrap(), Some(b"1".to_vec()));
    assert_eq!(s.read(b"b").unwrap(), None);
}

#[test]
fn non_insert_entries_are_ignored() {
    let mut e = WalEntry::insert(b"a", b"1");
    e.operation = "DELETE".to_string();
    let mut s = PageStore::new(PageConfig::default());
    s.apply_entry(&e);
    assert_eq!(s.page_count(), 0);
    assert_eq!(s.read(b"a").unwrap(), None);
}

#[test]
fn insert_entry_fields() {
    let e = WalEntry::insert(b"vectors", b"hello");
    assert_eq!(e.operation, "INSERT");
    assert_eq!(e.table, "vectors");
    assert_eq!(e.timestamp_ms, 0);
    assert_eq!(e.data, b"hello".to_vec());
    assert_eq!(e.checksum, kce::page::checksum(b"hello"));
}
