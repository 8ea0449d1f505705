use dxc_macros::text::{parse_u64, str_equals, u64_to_decimal};

#[test]
fn parse_u64_reads_plain_digits() {
    assert_eq!(parse_u64("0"), Some(0));
    assert_eq!(parse_u64("42"), Some(42));
    assert_eq!(parse_u64("0012"), Some(12));
}

#[test]
fn parse_u64_accepts_a_leading_plus() {
    assert_eq!(parse_u64("+7"), Some(7));
    assert_eq!(parse_u64("+"), None);
    assert_eq!(parse_u64("++7"), None);
}

#[test]
fn parse_u64_refuses_other_text() {
    assert_eq!(parse_u64(""), None);
    assert_eq!(parse_u64("-1"), None);
    assert_eq!(parse_u64("12a"), None);
    assert_eq!(parse_u64(" 1"), None);
    assert_eq!(parse_u64("１"), None);
}

#[test]
fn parse_u64_bounds() {
    assert_eq!(parse_u64("18446744073709551615"), Some(u64::MAX));
    assert_eq!(parse_u64("18446744073709551616"), None);
    assert_eq!(parse_u64("99999999999999999999x"), None);
}

#[test]
fn parse_u64_agrees_with_std() {
    for s in ["0", "7", "+7", "", "+", "-3", "1_000", "18446744073709551615", "18446744073709551616", "007"] {
        assert_eq!(parse_u64(s), s.parse::<u64>().ok(), "{}", s);
    }
}

#[test]
fn u64_to_decimal_writes_shortest_digits() {
    assert_eq!(u64_to_decimal(0), "0");
    assert_eq!(u64_to_decimal(7), "7");
    assert_eq!(u64_to_decimal(10), "10");
    assert_eq!(u64_to_decimal(1234567890), "1234567890");
    assert_eq!(u64_to_decimal(u64::MAX), "18446744073709551615");
}

#[test]
fn decimal_round_trip_on_values() {
    for n in [0u64, 1, 9, 10, 99, 100, 65535, 4294967296, u64::MAX] {
        assert_eq!(parse_u64(&u64_to_decimal(n)), Some(n));
        assert_eq!(u64_to_decimal(n), n.to_string());
    }
}

#[test]
fn str_equals_compares_characters() {
    assert!(str_equals("derive", "derive"));
    assert!(!str_equals("derive", "derives"));
    assert!(!str_equals("Derive", "derive"));
    assert!(str_equals("", ""));
    assert!(str_equals("é", "é"));
}
