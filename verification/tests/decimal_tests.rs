use winstamp::decimal::int_to_chars;
use winstamp::decimal::parse_i64;

fn cv(s: &str) -> Vec<char> {
    s.chars().collect()
}

fn sv(v: &Vec<char>) -> String {
    v.iter().collect()
}

#[test]
fn renders_zero() {
    assert_eq!(sv(&int_to_chars(0)), "0");
}

#[test]
fn renders_negative() {
    assert_eq!(sv(&int_to_chars(-1)), "-1");
    assert_eq!(sv(&int_to_chars(-1234567890123)), "-1234567890123");
}

#[test]
fn renders_extremes() {
    assert_eq!(sv(&int_to_chars(i64::MAX)), "9223372036854775807");
    assert_eq!(sv(&int_to_chars(i64::MIN)), "-9223372036854775808");
}

#[test]
fn parses_plain_and_signed() {
    assert_eq!(parse_i64(&cv("42")), Some(42));
    assert_eq!(parse_i64(&cv("+42")), Some(42));
    assert_eq!(parse_i64(&cv("-42")), Some(-42));
    assert_eq!(parse_i64(&cv("00123")), Some(123));
}

#[test]
fn parses_extremes() {
    assert_eq!(parse_i64(&cv("9223372036854775807")), Some(i64::MAX));
    assert_eq!(parse_i64(&cv("-9223372036854775808")), Some(i64::MIN));
}

#[test]
fn rejects_out_of_range() {
    assert_eq!(parse_i64(&cv("9223372036854775808")), None);
    assert_eq!(parse_i64(&cv("-9223372036854775809")), None);
    assert_eq!(parse_i64(&cv("99999999999999999999999999")), None);
}

#[test]
fn rejects_malformed() {
    assert_eq!(parse_i64(&cv("")), None);
    assert_eq!(parse_i64(&cv("-")), None);
    assert_eq!(parse_i64(&cv("+")), None);
    assert_eq!(parse_i64(&cv("12a")), None);
    assert_eq!(parse_i64(&cv(" 12")), None);
    assert_eq!(parse_i64(&cv("1 2")), None);
    assert_eq!(parse_i64(&cv("--1")), None);
}

#[test]
fn round_trips_through_text() {
    for v in [0i64, 1, -1, 1601, -987654321, i64::MAX, i64::MIN] {
        assert_eq!(parse_i64(&int_to_chars(v)), Some(v));
    }
}
