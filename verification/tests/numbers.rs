use raytracer::numbers::parse_decimal;
use raytracer::tokens::Span;

fn parse(word: &str) -> Option<u32> {
    parse_decimal(word.as_bytes(), Span { start: 0, end: word.len() })
}

#[test]
fn decimal_numbers_are_read() {
    assert_eq!(parse("0"), Some(0));
    assert_eq!(parse("7"), Some(7));
    assert_eq!(parse("640"), Some(640));
    assert_eq!(parse("007"), Some(7));
    assert_eq!(parse("4294967295"), Some(u32::MAX));
    assert_eq!(parse("0000000004294967295"), Some(u32::MAX));
}

#[test]
fn a_plus_sign_may_stand_in_front() {
    assert_eq!(parse("+5"), Some(5));
    assert_eq!(parse("+0"), Some(0));
    assert_eq!(parse("+"), None);
    assert_eq!(parse("++5"), None);
    assert_eq!(parse("5+"), None);
}

#[test]
fn what_is_no_number_is_refused() {
    assert_eq!(parse(""), None);
    assert_eq!(parse("-1"), None);
    assert_eq!(parse("-0"), None);
    assert_eq!(parse("12a"), None);
    assert_eq!(parse("a12"), None);
    assert_eq!(parse("1.5"), None);
    assert_eq!(parse("1 2"), None);
    assert_eq!(parse("/"), None);
    assert_eq!(parse(":"), None);
}

#[test]
fn numbers_above_the_range_are_refused() {
    assert_eq!(parse("4294967296"), None);
    assert_eq!(parse("9999999999"), None);
    assert_eq!(parse("99999999999999999999999999"), None);
    assert_eq!(parse("42949672950"), None);
}

#[test]
fn parse_decimal_agrees_with_std() {
    for word in ["0", "12", "+12", "-12", "", "+", "4294967295", "4294967296", "1e3", "0x10"] {
        assert_eq!(parse(word), word.parse::<u32>().ok());
    }
}

#[test]
fn parse_decimal_reads_the_span_alone() {
    let text = b"size 640 480";
    assert_eq!(parse_decimal(text, Span { start: 5, end: 8 }), Some(640));
    assert_eq!(parse_decimal(text, Span { start: 9, end: 12 }), Some(480));
    assert_eq!(parse_decimal(text, Span { start: 5, end: 7 }), Some(64));
    assert_eq!(parse_decimal(text, Span { start: 4, end: 8 }), None);
    assert_eq!(parse_decimal(text, Span { start: 6, end: 6 }), None);
}
