use my_redis::decimal::{parse_decimal, push_decimal};
use my_redis::text::{bytes_eq, decimal_string, text_eq};

#[test]
fn parse_decimal_reads_digits() {
    assert_eq!(parse_decimal(b"0"), Some(0));
    assert_eq!(parse_decimal(b"42"), Some(42));
    assert_eq!(parse_decimal(b"000123"), Some(123));
    assert_eq!(parse_decimal(b"18446744073709551615"), Some(u64::MAX));
}

#[test]
fn parse_decimal_rejects_everything_else() {
    assert_eq!(parse_decimal(b""), None);
    assert_eq!(parse_decimal(b"+1"), None);
    assert_eq!(parse_decimal(b"-1"), None);
    assert_eq!(parse_decimal(b"1 "), None);
    assert_eq!(parse_decimal(b" 1"), None);
    assert_eq!(parse_decimal(b"1_000"), None);
    assert_eq!(parse_decimal(b"12a"), None);
    assert_eq!(parse_decimal(b"18446744073709551616"), None);
    assert_eq!(parse_decimal(b"184467440737095516150"), None);
    assert_eq!(parse_decimal(b"99999999999999999999x"), None);
}

#[test]
fn push_decimal_writes_shortest_digits() {
    let mut out = b"n=".to_vec();
    push_decimal(&mut out, 0);
    assert_eq!(out, b"n=0".to_vec());
    let mut out = Vec::new();
    push_decimal(&mut out, 9);
    push_decimal(&mut out, 10);
    push_decimal(&mut out, 1234567890);
    assert_eq!(out, b"9101234567890".to_vec());
    let mut out = Vec::new();
    push_decimal(&mut out, u64::MAX);
    assert_eq!(out, b"18446744073709551615".to_vec());
}

#[test]
fn decimal_round_trip_on_chosen_numbers() {
    for n in [0u64, 1, 9, 10, 99, 100, 65535, 1 << 32, u64::MAX - 1, u64::MAX] {
        let mut out = Vec::new();
        push_decimal(&mut out, n);
        assert_eq!(parse_decimal(&out), Some(n));
        assert_eq!(decimal_string(n), n.to_string());
    }
}

#[test]
fn text_and_bytes_compare_by_content() {
    assert!(text_eq("get", "get"));
    assert!(!text_eq("get", "set"));
    assert!(!text_eq("get", "gets"));
    assert!(text_eq("", ""));
    assert!(bytes_eq(b"ab", b"ab"));
    assert!(!bytes_eq(b"ab", b"ac"));
    assert!(!bytes_eq(b"ab", b"a"));
}
