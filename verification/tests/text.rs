use web3_proxy::text::{decimal_text, same_text, signed_decimal_text, starts_with};

#[test]
fn decimal_notation() {
    assert_eq!(decimal_text(0), "0");
    assert_eq!(decimal_text(9), "9");
    assert_eq!(decimal_text(10), "10");
    assert_eq!(decimal_text(1234567890), "1234567890");
    assert_eq!(decimal_text(u64::MAX), format!("{}", u64::MAX));
}

#[test]
fn signed_decimal_notation() {
    assert_eq!(signed_decimal_text(-1), "-1");
    assert_eq!(signed_decimal_text(0), "0");
    assert_eq!(signed_decimal_text(i64::MIN), format!("{}", i64::MIN));
    assert_eq!(signed_decimal_text(i64::MAX), format!("{}", i64::MAX));
}

#[test]
fn prefixes() {
    assert!(starts_with("header not found", "header"));
    assert!(starts_with("header", "header"));
    assert!(starts_with("header", ""));
    assert!(!starts_with("head", "header"));
    assert!(!starts_with("a header", "header"));
    assert!(starts_with("\u{e9}t\u{e9}", "\u{e9}t"));
}

#[test]
fn same_texts() {
    assert!(same_text("a", "a"));
    assert!(!same_text("a", "A"));
}
