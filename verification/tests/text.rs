use canvas_grading::text::{chars_of, decimal_text, find, parse_unsigned, push_decimal};

#[test]
fn decimal_text_of_zero_is_one_digit() {
    assert_eq!(decimal_text(0), "0");
}

#[test]
fn decimal_text_has_no_leading_zeros() {
    assert_eq!(decimal_text(7), "7");
    assert_eq!(decimal_text(10), "10");
    assert_eq!(decimal_text(1005), "1005");
}

#[test]
fn decimal_text_of_the_largest_number() {
    assert_eq!(decimal_text(u64::MAX), "18446744073709551615");
}

#[test]
fn decimal_text_agrees_with_the_standard_library() {
    for n in [0u64, 1, 9, 10, 11, 99, 100, 12345, 4294967296, u64::MAX - 1, u64::MAX] {
        assert_eq!(decimal_text(n), n.to_string());
    }
}

#[test]
fn push_decimal_appends() {
    let mut out = String::from("page=");
    push_decimal(&mut out, 42);
    assert_eq!(out, "page=42");
}

#[test]
fn parse_unsigned_reads_digits() {
    assert_eq!(parse_unsigned("42"), Some(42));
    assert_eq!(parse_unsigned("0"), Some(0));
    assert_eq!(parse_unsigned("007"), Some(7));
}

#[test]
fn parse_unsigned_takes_a_plus_sign() {
    assert_eq!(parse_unsigned("+5"), Some(5));
    assert_eq!(parse_unsigned("+"), None);
    assert_eq!(parse_unsigned("++5"), None);
}

#[test]
fn parse_unsigned_refuses_what_is_no_number() {
    assert_eq!(parse_unsigned(""), None);
    assert_eq!(parse_unsigned("-1"), None);
    assert_eq!(parse_unsigned(" 5"), None);
    assert_eq!(parse_unsigned("5 "), None);
    assert_eq!(parse_unsigned("4_2"), None);
    assert_eq!(parse_unsigned("4.2"), None);
    assert_eq!(parse_unsigned("x"), None);
    assert_eq!(parse_unsigned("٤٢"), None);
}

#[test]
fn parse_unsigned_stops_at_the_largest_number() {
    assert_eq!(parse_unsigned("18446744073709551615"), Some(u64::MAX));
    assert_eq!(parse_unsigned("18446744073709551616"), None);
    assert_eq!(parse_unsigned("99999999999999999999"), None);
    assert_eq!(parse_unsigned("000000000000000000000000000001"), Some(1));
}

#[test]
fn parse_unsigned_agrees_with_the_standard_library() {
    for text in [
        "", "+", "-", "0", "+0", "-0", "12", "+12", "1 2", "12a", "a12", "18446744073709551615",
        "18446744073709551616", "+18446744073709551615", "0018446744073709551615", "１２",
    ] {
        assert_eq!(parse_unsigned(text), text.parse::<u64>().ok(), "{:?}", text);
    }
}

#[test]
fn parse_unsigned_undoes_decimal_text() {
    for n in [0u64, 5, 10, 999, 1000, u64::MAX] {
        assert_eq!(parse_unsigned(&decimal_text(n)), Some(n));
    }
}

#[test]
fn chars_of_keeps_every_character() {
    assert_eq!(chars_of("a: é"), vec!['a', ':', ' ', 'é']);
    assert_eq!(chars_of(""), Vec::<char>::new());
}

#[test]
fn find_gives_the_leftmost_position() {
    let text = chars_of("a: b: c");
    let pattern = chars_of(": ");
    assert_eq!(find(&text, &pattern), Some(1));
}

#[test]
fn find_gives_nothing_where_the_pattern_is_missing() {
    assert_eq!(find(&chars_of("42:87.5"), &chars_of(": ")), None);
    assert_eq!(find(&chars_of(":"), &chars_of(": ")), None);
    assert_eq!(find(&chars_of(""), &chars_of(": ")), None);
}

#[test]
fn find_of_the_empty_pattern_is_the_start() {
    assert_eq!(find(&chars_of("abc"), &chars_of("")), Some(0));
    assert_eq!(find(&chars_of(""), &chars_of("")), Some(0));
}

#[test]
fn find_sees_a_pattern_at_the_end() {
    assert_eq!(find(&chars_of("abc: "), &chars_of(": ")), Some(3));
    assert_eq!(find(&chars_of("aab"), &chars_of("ab")), Some(1));
}
