use dumnati::parse::{format_decimal, parse_i64, parse_ppb, parse_u64};

#[test]
fn u64_parsing() {
    assert_eq!(parse_u64("10"), Some(10));
    assert_eq!(parse_u64("+7"), Some(7));
    assert_eq!(parse_u64("007"), Some(7));
    assert_eq!(parse_u64("18446744073709551615"), Some(u64::MAX));
    assert_eq!(parse_u64("18446744073709551616"), None);
    assert_eq!(parse_u64("-1"), None);
    assert_eq!(parse_u64(""), None);
    assert_eq!(parse_u64("+"), None);
    assert_eq!(parse_u64("1 "), None);
}

#[test]
fn i64_parsing() {
    assert_eq!(parse_i64("1000"), Some(1000));
    assert_eq!(parse_i64("-42"), Some(-42));
    assert_eq!(parse_i64("+42"), Some(42));
    assert_eq!(parse_i64("-9223372036854775808"), Some(i64::MIN));
    assert_eq!(parse_i64("9223372036854775807"), Some(i64::MAX));
    assert_eq!(parse_i64("9223372036854775808"), None);
    assert_eq!(parse_i64("-"), None);
    assert_eq!(parse_i64("1.5"), None);
}

#[test]
fn integer_parsing_agrees_with_std() {
    for s in ["0", "12", "+3", "-3", "", "x", "99999999999999999999", "-0"] {
        assert_eq!(parse_u64(s), s.parse::<u64>().ok(), "{}", s);
        assert_eq!(parse_i64(s), s.parse::<i64>().ok(), "{}", s);
    }
}

#[test]
fn fraction_parsing() {
    assert_eq!(parse_ppb("0.5"), Some(500_000_000));
    assert_eq!(parse_ppb("0.0"), Some(0));
    assert_eq!(parse_ppb("1"), Some(1_000_000_000));
    assert_eq!(parse_ppb(".25"), Some(250_000_000));
    assert_eq!(parse_ppb("2."), Some(2_000_000_000));
    assert_eq!(parse_ppb("-0.5"), Some(-500_000_000));
    assert_eq!(parse_ppb("+0.000000001"), Some(1));
    assert_eq!(parse_ppb("0.1234567891"), Some(123_456_789));
    assert_eq!(parse_ppb("abc"), None);
    assert_eq!(parse_ppb("."), None);
    assert_eq!(parse_ppb(""), None);
    assert_eq!(parse_ppb("1e-3"), None);
    assert_eq!(parse_ppb("0.5.1"), None);
    assert_eq!(parse_ppb("1000000000"), None);
}

#[test]
fn decimal_formatting() {
    assert_eq!(format_decimal(0), "0");
    assert_eq!(format_decimal(7), "7");
    assert_eq!(format_decimal(1234), "1234");
    assert_eq!(format_decimal(u64::MAX), u64::MAX.to_string());
}
