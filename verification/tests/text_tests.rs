use minilang::text::{digit_of, parse_decimal, strip_ends};

#[test]
fn digits() {
    assert_eq!(digit_of('0'), Some(0));
    assert_eq!(digit_of('5'), Some(5));
    assert_eq!(digit_of('9'), Some(9));
    assert_eq!(digit_of('a'), None);
    assert_eq!(digit_of(' '), None);
    assert_eq!(digit_of('٣'), None);
}

#[test]
fn decimal_numbers() {
    assert_eq!(parse_decimal("0"), Some(0));
    assert_eq!(parse_decimal("007"), Some(7));
    assert_eq!(parse_decimal("12345"), Some(12345));
    assert_eq!(parse_decimal("32767"), Some(32767));
}

#[test]
fn not_decimal_numbers() {
    assert_eq!(parse_decimal(""), None);
    assert_eq!(parse_decimal("32768"), None);
    assert_eq!(parse_decimal("99999999999999999999"), None);
    assert_eq!(parse_decimal("-1"), None);
    assert_eq!(parse_decimal("+1"), None);
    assert_eq!(parse_decimal("1a"), None);
    assert_eq!(parse_decimal("3276a"), None);
    assert_eq!(parse_decimal("327680x"), None);
}

#[test]
fn stripping_the_ends() {
    assert_eq!(strip_ends("\"abc\""), "abc");
    assert_eq!(strip_ends("\"a\\\"b\""), "a\\\"b");
    assert_eq!(strip_ends("\"\""), "");
    assert_eq!(strip_ends("xay"), "a");
    assert_eq!(strip_ends("\""), "");
    assert_eq!(strip_ends(""), "");
    assert_eq!(strip_ends("\"\u{e9}t\u{e9}\""), "\u{e9}t\u{e9}");
}
