use mangadex_dl::text::{count_digits, normalize_decimal, parse_i64, str_eq, u64_to_string, zero_padded};

#[test]
fn decimal_rendering() {
    assert_eq!(u64_to_string(0), "0");
    assert_eq!(u64_to_string(7), "7");
    assert_eq!(u64_to_string(1234567890), "1234567890");
    assert_eq!(u64_to_string(u64::MAX), "18446744073709551615");
}

#[test]
fn digit_counting() {
    assert_eq!(count_digits(0), 1);
    assert_eq!(count_digits(9), 1);
    assert_eq!(count_digits(10), 2);
    assert_eq!(count_digits(99), 2);
    assert_eq!(count_digits(100), 3);
    assert_eq!(count_digits(u64::MAX), 20);
}

#[test]
fn zero_padding() {
    assert_eq!(zero_padded(7, 3), "007");
    assert_eq!(zero_padded(12, 2), "12");
    assert_eq!(zero_padded(123, 2), "123");
    assert_eq!(zero_padded(0, 4), "0000");
}

#[test]
fn integer_parsing() {
    assert_eq!(parse_i64("1234"), Some(1234));
    assert_eq!(parse_i64("+12"), Some(12));
    assert_eq!(parse_i64("-3"), Some(-3));
    assert_eq!(parse_i64("007"), Some(7));
    assert_eq!(parse_i64("9223372036854775807"), Some(i64::MAX));
    assert_eq!(parse_i64("-9223372036854775808"), Some(i64::MIN));
    assert_eq!(parse_i64("9223372036854775808"), None);
    assert_eq!(parse_i64("99999999999999999999999999"), None);
    assert_eq!(parse_i64(""), None);
    assert_eq!(parse_i64("+"), None);
    assert_eq!(parse_i64("12a"), None);
    assert_eq!(parse_i64(" 12"), None);
}

#[test]
fn decimal_normalization() {
    assert_eq!(normalize_decimal("4").as_deref(), Some("4"));
    assert_eq!(normalize_decimal("04").as_deref(), Some("4"));
    assert_eq!(normalize_decimal("4.50").as_deref(), Some("4.5"));
    assert_eq!(normalize_decimal("4.0").as_deref(), Some("4"));
    assert_eq!(normalize_decimal(".5").as_deref(), Some("0.5"));
    assert_eq!(normalize_decimal("1.").as_deref(), Some("1"));
    assert_eq!(normalize_decimal("000").as_deref(), Some("0"));
    assert_eq!(normalize_decimal("+7").as_deref(), Some("7"));
    assert_eq!(normalize_decimal("-0.0").as_deref(), Some("-0"));
    assert_eq!(normalize_decimal("-12.30").as_deref(), Some("-12.3"));
    assert_eq!(normalize_decimal(""), None);
    assert_eq!(normalize_decimal("."), None);
    assert_eq!(normalize_decimal("abc"), None);
    assert_eq!(normalize_decimal("1.2.3"), None);
    assert_eq!(normalize_decimal("1e3"), None);
}

#[test]
fn string_comparison() {
    assert!(str_eq("abc", "abc"));
    assert!(!str_eq("abc", "abd"));
    assert!(!str_eq("abc", "ab"));
    assert!(str_eq("", ""));
}
