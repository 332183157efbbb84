use kce::memory::{AntigenMemory, AntigenRecord, AntigenStatus, MemoryConfig, Severity};

fn bits(v: &[f64]) -> Vec<u64> {
    v.iter().map(|x| x.to_bits()).collect()
}

#[test]
fn store_and_retrieve() {
    let mut mem = AntigenMemory::default();
    let id = mem.store(bits(&[1.0, 2.0]), Severity::High, 1000);
    let record = mem.get(id).unwrap();
    assert_eq!(record.encounter_count, 1);
    assert_eq!(record.severity, Severity::High);
    assert_eq!(record.status, AntigenStatus::Active);
}

#[test]
fn encounter_increments_count() {
    let mut mem = AntigenMemory::default();
    let id = mem.store(bits(&[1.0]), Severity::Low, 1000);
    mem.record_encounter(id, 2000);
    let record = mem.get(id).unwrap();
    assert_eq!(record.encounter_count, 2);
    assert_eq!(record.last_seen_ms, 2000);
}

#[test]
fn eviction_on_full() {
    let config = MemoryConfig {
        max_entries: 2,
        match_threshold_bits: 0.1f64.to_bits(),
        expiry_days: 90,
    };
    let mut mem = AntigenMemory::new(config);
    mem.store(bits(&[0.0]), Severity::Low, 1000);
    mem.store(bits(&[1.0]), Severity::Low, 1000);
    mem.store(bits(&[2.0]), Severity::Low, 1000); // should evict one
    assert_eq!(mem.len(), 2);
}

/// 91 days in ms = 91 * 86400 * 1000 = 7_862_400_000
const NINETY_ONE_DAYS_MS: u64 = 91 * 86_400 * 1000;

#[test]
fn test_antigen_expiry() {
    let mut mem = AntigenMemory::default(); // expiry_days = 90
    let id = mem.store(bits(&[1.0, 2.0]), Severity::High, 0);
    assert!(!AntigenMemory::is_expired(mem.get(id).unwrap(), 1, 90));
    let boundary_ms = 90_u64 * 86_400 * 1000;
    assert!(!AntigenMemory::is_expired(mem.get(id).unwrap(), boundary_ms, 90));
    assert!(AntigenMemory::is_expired(mem.get(id).unwrap(), NINETY_ONE_DAYS_MS, 90));
    mem.expire_old(NINETY_ONE_DAYS_MS);
    assert_eq!(mem.get(id).unwrap().status, AntigenStatus::Expired);
}

#[test]
fn test_export_csv_format() {
    let mut mem = AntigenMemory::default();
    mem.store(bits(&[1.0]), Severity::High, 1000);
    mem.store(bits(&[2.0]), Severity::Low, 2000);

    let csv = mem.export_csv();
    let mut lines = csv.lines();
    assert_eq!(
        lines.next().unwrap(),
        "antigen_id,severity,first_seen_ms,last_seen_ms,encounter_count,status"
    );
    let data_lines: Vec<&str> = lines.collect();
    assert_eq!(data_lines.len(), 2);
    for line in &data_lines {
        assert!(line.ends_with(",ACTIVE"), "expected ACTIVE status in: {line}");
    }
}

#[test]
fn test_expiry_disabled() {
    let config = MemoryConfig {
        max_entries: 10,
        match_threshold_bits: 0.1f64.to_bits(),
        expiry_days: 0, // never expire
    };
    let mut mem = AntigenMemory::new(config);
    let id = mem.store(bits(&[1.0]), Severity::Low, 0);
    assert!(!AntigenMemory::is_expired(mem.get(id).unwrap(), u64::MAX / 2, 0));
    mem.expire_old(u64::MAX / 2);
    assert_eq!(mem.get(id).unwrap().status, AntigenStatus::Active);
}

#[test]
fn csv_lines_exact() {
    let mut mem = AntigenMemory::default();
    let a = mem.store(bits(&[1.0]), Severity::High, 1000);
    mem.record_encounter(a, 1500);
    mem.store(bits(&[2.0]), Severity::Critical, 2000);
    mem.expire_old(1000 + 90 * 86_400_000 + 500);
    let csv = mem.export_csv();
    assert_eq!(
        csv,
        "antigen_id,severity,first_seen_ms,last_seen_ms,encounter_count,status\n\
         1,High,1000,1500,2,EXPIRED\n\
         2,Critical,2000,2000,1,ACTIVE\n"
    );
}

#[test]
fn eviction_drops_least_encountered() {
    let config = MemoryConfig {
        max_entries: 2,
        match_threshold_bits: 0.1f64.to_bits(),
        expiry_days: 90,
    };
    let mut mem = AntigenMemory::new(config);
    let a = mem.store(bits(&[0.0]), Severity::Low, 1000);
    let b = mem.store(bits(&[1.0]), Severity::Low, 1000);
    mem.record_encounter(a, 1100);
    let c = mem.store(bits(&[2.0]), Severity::Low, 1200);
    assert!(mem.get(a).is_some());
    assert!(mem.get(b).is_none());
    assert!(mem.get(c).is_some());
    assert_eq!(mem.records().len(), 2);
}

fn saved(id: u64, count: u64) -> AntigenRecord {
    AntigenRecord {
        id,
        pattern: bits(&[1.0]),
        encounter_count: count,
        first_seen_ms: 10,
        last_seen_ms: 20,
        severity: Severity::Medium,
        status: AntigenStatus::Active,
    }
}

#[test]
fn merge_skips_held_ids_and_moves_next_id() {
    let mut mem = AntigenMemory::default();
    let first = mem.store(bits(&[0.5]), Severity::Low, 5);
    assert_eq!(first, 1);
    let added = mem.merge_records(vec![saved(1, 7), saved(9, 3), saved(4, 2), saved(9, 8)]);
    assert_eq!(added, 2);
    assert_eq!(mem.len(), 3);
    assert_eq!(mem.get(1).unwrap().encounter_count, 1);
    assert_eq!(mem.get(9).unwrap().encounter_count, 3);
    assert_eq!(mem.get(4).unwrap().encounter_count, 2);
    let ids: Vec<u64> = mem.records().iter().map(|r| r.id).collect();
    assert_eq!(ids, vec![1, 9, 4]);
    assert_eq!(mem.store(bits(&[0.1]), Severity::Low, 6), 10);
}
