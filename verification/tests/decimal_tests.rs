use lib::decimal::{parse_unsigned_str, push_decimal};

fn decimal_text(n: u64) -> String {
    let mut out = Vec::new();
    push_decimal(&mut out, n);
    String::from_utf8(out).unwrap()
}

#[test]
fn push_decimal_writes_digits_without_leading_zeros() {
    assert_eq!(decimal_text(0), "0");
    assert_eq!(decimal_text(7), "7");
    assert_eq!(decimal_text(10), "10");
    assert_eq!(decimal_text(255), "255");
    assert_eq!(decimal_text(1234567890), "1234567890");
    assert_eq!(decimal_text(u64::MAX), "18446744073709551615");
}

#[test]
fn push_decimal_appends() {
    let mut out = b"w=".to_vec();
    push_decimal(&mut out, 800);
    assert_eq!(out, b"w=800".to_vec());
}

#[test]
fn parse_accepts_digits_with_optional_plus() {
    assert_eq!(parse_unsigned_str("42", 100), Some(42));
    assert_eq!(parse_unsigned_str("+42", 100), Some(42));
    assert_eq!(parse_unsigned_str("007", 100), Some(7));
    assert_eq!(parse_unsigned_str("0", 0), Some(0));
}

#[test]
fn parse_rejects_other_text() {
    assert_eq!(parse_unsigned_str("", 100), None);
    assert_eq!(parse_unsigned_str("+", 100), None);
    assert_eq!(parse_unsigned_str("-1", 100), None);
    assert_eq!(parse_unsigned_str("-0", 100), None);
    assert_eq!(parse_unsigned_str("++1", 100), None);
    assert_eq!(parse_unsigned_str("4a", 100), None);
    assert_eq!(parse_unsigned_str(" 4", 100), None);
    assert_eq!(parse_unsigned_str("4 ", 100), None);
    assert_eq!(parse_unsigned_str("1.5", 100), None);
    assert_eq!(parse_unsigned_str("\u{ff14}\u{ff12}", 100), None);
}

#[test]
fn parse_rejects_values_above_the_bound() {
    assert_eq!(parse_unsigned_str("255", 255), Some(255));
    assert_eq!(parse_unsigned_str("256", 255), None);
    assert_eq!(parse_unsigned_str("18446744073709551615", u64::MAX), Some(u64::MAX));
    assert_eq!(parse_unsigned_str("18446744073709551616", u64::MAX), None);
    assert_eq!(parse_unsigned_str("99999999999999999999999", u64::MAX), None);
}

#[test]
fn parse_of_printed_number_gives_it_back() {
    for n in [0u64, 1, 9, 10, 99, 100, 600, 800, 65535, 4294967295, u64::MAX] {
        assert_eq!(parse_unsigned_str(&decimal_text(n), u64::MAX), Some(n));
    }
}

#[test]
fn parse_agrees_with_std_on_samples() {
    for s in ["0", "12", "+12", "-12", "", "+", "1_0", "4294967295", "4294967296", "00000000000000000000001"] {
        assert_eq!(parse_unsigned_str(s, u32::MAX as u64).map(|v| v as u32), s.parse::<u32>().ok());
    }
}
