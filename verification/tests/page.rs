use kce::error::StorageError;
use kce::page::{checksum, Page, PageConfig, DEFAULT_PAGE_SIZE};

#[test]
fn page_checksum_valid() {
    let page = Page::new(1, b"hello world".to_vec());
    assert!(page.verify().is_ok());
}

#[test]
fn page_checksum_corrupted() {
    let mut page = Page::new(1, b"hello world".to_vec());
    page.data[0] = b'x';
    let result = page.verify();
    assert!(result.is_err());
    match result.unwrap_err() {
        StorageError::ChecksumFailure { page_id, .. } => assert_eq!(page_id, 1),
        other => panic!("expected ChecksumFailure, got {:?}", other),
    }
}

#[test]
fn checksum_deterministic() {
    let a = checksum(b"test data");
    let b = checksum(b"test data");
    assert_eq!(a, b);
}

#[test]
fn checksum_different_data() {
    let a = checksum(b"data a");
    let b = checksum(b"data b");
    assert_ne!(a, b);
}

#[test]
fn page_default_capacity() {
    let page = Page::new(0, b"test".to_vec());
    assert_eq!(page.capacity(), DEFAULT_PAGE_SIZE);
}

#[test]
fn page_custom_capacity() {
    let config = PageConfig { size: 4096 };
    let page = Page::with_config(0, b"test".to_vec(), &config);
    assert_eq!(page.capacity(), 4096);
    assert!(page.verify().is_ok());
}

#[test]
fn page_config_default() {
    let config = PageConfig::default();
    assert_eq!(config.size, DEFAULT_PAGE_SIZE);
}

#[test]
fn checksum_is_crc32() {
    // The standard CRC-32 check value.
    assert_eq!(checksum(b"123456789"), 0xCBF4_3926);
    assert_eq!(checksum(b""), 0);
    let page = Page::new(9, b"123456789".to_vec());
    assert_eq!(page.checksum, 0xCBF4_3926);
    assert_eq!(page.bytes(), b"123456789");
}

/// The register steps of the stated CRC-32 definition, bit by bit.
fn crc32_by_bits(data: &[u8]) -> u32 {
    let mut c: u32 = 0xFFFF_FFFF;
    for &b in data {
        c ^= b as u32;
        for _ in 0..8 {
            c = if c & 1 == 1 { (c >> 1) ^ 0xEDB8_8320 } else { c >> 1 };
        }
    }
    c ^ 0xFFFF_FFFF
}

#[test]
fn checksum_is_bitwise_crc32() {
    assert_eq!(checksum(b"123456789"), 0xCBF4_3926);
    assert_eq!(checksum(b""), 0);
    for data in [&b"hello"[..], &b"KineContext"[..], &[0u8; 100][..], &[0xFFu8, 0x00, 0x7F][..]] {
        assert_eq!(checksum(data), crc32_by_bits(data));
    }
}
