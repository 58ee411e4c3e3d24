use homer::numbers::dec_matches;
use homer::numbers::parse_i64;
use homer::numbers::round_decimal;
use homer::numbers::u64_to_string;

#[test]
fn parse_i64_reads_plain_integers() {
    assert_eq!(parse_i64("1"), Some(1));
    assert_eq!(parse_i64("+42"), Some(42));
    assert_eq!(parse_i64("-7"), Some(-7));
    assert_eq!(parse_i64("0"), Some(0));
    assert_eq!(parse_i64("00"), Some(0));
    assert_eq!(parse_i64("010"), Some(10));
}

#[test]
fn parse_i64_rejects_everything_else() {
    assert_eq!(parse_i64(""), None);
    assert_eq!(parse_i64("+"), None);
    assert_eq!(parse_i64("-"), None);
    assert_eq!(parse_i64("1.0"), None);
    assert_eq!(parse_i64("on"), None);
    assert_eq!(parse_i64(" 1"), None);
    assert_eq!(parse_i64("1 "), None);
    assert_eq!(parse_i64("1e3"), None);
}

#[test]
fn parse_i64_honours_the_machine_range() {
    assert_eq!(parse_i64("9223372036854775807"), Some(i64::MAX));
    assert_eq!(parse_i64("-9223372036854775808"), Some(i64::MIN));
    assert_eq!(parse_i64("9223372036854775808"), None);
    assert_eq!(parse_i64("-9223372036854775809"), None);
    assert_eq!(parse_i64("99999999999999999999999999"), None);
}

#[test]
fn u64_renders_in_base_ten() {
    assert_eq!(u64_to_string(0), "0");
    assert_eq!(u64_to_string(7), "7");
    assert_eq!(u64_to_string(1024), "1024");
    assert_eq!(u64_to_string(18446744073709551615), "18446744073709551615");
}

#[test]
fn decimal_equality_is_numeric() {
    assert!(dec_matches("1", "1.0"));
    assert!(dec_matches("0.50", ".5"));
    assert!(dec_matches("5.", "5"));
    assert!(dec_matches("+1", "1"));
    assert!(dec_matches("-0", "0"));
    assert!(dec_matches("-0.0", "0.000"));
    assert!(dec_matches("21.60", "21.6"));
}

#[test]
fn decimal_equality_rejects_mismatches_and_non_numerals() {
    assert!(!dec_matches("1", "2"));
    assert!(!dec_matches("-1", "1"));
    assert!(!dec_matches("1", "abc"));
    assert!(!dec_matches("abc", "abc"));
    assert!(!dec_matches("", ""));
    assert!(!dec_matches("1.0.0", "1"));
}

#[test]
fn rounding_is_half_away_from_zero() {
    assert_eq!(round_decimal("21.6").as_deref(), Some("22"));
    assert_eq!(round_decimal("21.4").as_deref(), Some("21"));
    assert_eq!(round_decimal("2.5").as_deref(), Some("3"));
    assert_eq!(round_decimal("-0.5").as_deref(), Some("-1"));
    assert_eq!(round_decimal("-0.4").as_deref(), Some("-0"));
    assert_eq!(round_decimal("0").as_deref(), Some("0"));
    assert_eq!(round_decimal("007.5").as_deref(), Some("8"));
    assert_eq!(round_decimal(".5").as_deref(), Some("1"));
    assert_eq!(round_decimal("9.99").as_deref(), Some("10"));
    assert_eq!(round_decimal("99").as_deref(), Some("99"));
}

#[test]
fn rounding_degrades_gracefully_on_non_numerals() {
    assert_eq!(round_decimal("abc"), None);
    assert_eq!(round_decimal(""), None);
    assert_eq!(round_decimal("1.2.3"), None);
    assert_eq!(round_decimal("."), None);
}
