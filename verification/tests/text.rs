use kce::text::{contains_text, decimal};

#[test]
fn decimal_text() {
    assert_eq!(decimal(0), "0");
    assert_eq!(decimal(1234567890), "1234567890");
    assert_eq!(decimal(u64::MAX), "18446744073709551615");
}

#[test]
fn substring_search() {
    assert!(contains_text("mRNA expired (ttl=5ms)", "expired"));
    assert!(!contains_text("validation: bad", "expired"));
    assert!(contains_text("abc", ""));
    assert!(!contains_text("", "a"));
    assert!(contains_text("aab", "ab"));
    assert!(contains_text("héllo wörld", "wö"));
}
