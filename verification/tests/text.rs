use kernel_core::history::InputHistory;
use kernel_core::parser::{int_to_str_buf, parse_int_from_str, ParseError};
use kernel_core::simple_string::{FixedString, FixedStringError};

#[test]
fn fixed_string_starts_empty() {
    let s: FixedString<8> = FixedString::new();
    assert_eq!(s.len(), 0);
    assert_eq!(s.capacity(), 8);
    assert_eq!(s.as_str(), "");
}

#[test]
fn fixed_string_push_and_clear() {
    let mut s: FixedString<8> = FixedString::new();
    assert_eq!(s.push_str("abc"), Ok(()));
    assert_eq!(s.push_byte(b'd'), Ok(()));
    assert_eq!(s.as_str(), "abcd");
    assert_eq!(s.as_bytes(), b"abcd");
    assert_eq!(s.len(), 4);
    s.clear();
    assert_eq!(s.len(), 0);
    assert_eq!(s.as_str(), "");
    assert_eq!(s.capacity(), 8);
}

#[test]
fn fixed_string_keeps_what_fits() {
    let mut s: FixedString<4> = FixedString::new();
    assert_eq!(s.push_str("abcdef"), Err(FixedStringError::NoCapacity));
    assert_eq!(s.as_str(), "abcd");
    assert_eq!(s.push_byte(b'x'), Err(FixedStringError::NoCapacity));
    assert_eq!(s.as_str(), "abcd");
    assert_eq!(s.push_str(""), Ok(()));
    let mut exact: FixedString<3> = FixedString::new();
    assert_eq!(exact.push_str("abc"), Ok(()));
    assert_eq!(exact.len(), 3);
}

#[test]
fn fixed_string_shows_nothing_for_broken_utf8() {
    let mut s: FixedString<4> = FixedString::new();
    assert_eq!(s.push_byte(0xFF), Ok(()));
    assert_eq!(s.as_bytes(), &[0xFF]);
    assert_eq!(s.as_str(), "");
    let mut cut: FixedString<1> = FixedString::new();
    assert_eq!(cut.push_str("é"), Err(FixedStringError::NoCapacity));
    assert_eq!(cut.len(), 1);
    assert_eq!(cut.as_str(), "");
}

#[test]
fn history_starts_empty() {
    let mut history = InputHistory::new();
    assert!(history.is_empty());
    assert!(history.is_at_current());
    assert_eq!(history.latest(), None);
    assert_eq!(history.previous(), None);
    assert_eq!(history.next(), None);
}

#[test]
fn history_walks_back_and_forth() {
    let mut history = InputHistory::new();
    history.push("one");
    history.push("two");
    history.push("three");
    assert!(!history.is_empty());
    assert!(history.is_at_current());
    assert_eq!(history.latest(), Some("three"));
    assert_eq!(history.previous(), Some("three"));
    assert!(!history.is_at_current());
    assert_eq!(history.previous(), Some("two"));
    assert_eq!(history.previous(), Some("one"));
    assert_eq!(history.previous(), Some("one"));
    assert_eq!(history.next(), Some("two"));
    assert_eq!(history.next(), Some("three"));
    assert_eq!(history.next(), None);
    assert!(history.is_at_current());
    assert_eq!(history.next(), None);
    assert_eq!(history.previous(), Some("three"));
    history.reset_navigation();
    assert!(history.is_at_current());
}

#[test]
fn history_skips_empty_and_repeated_lines() {
    let mut history = InputHistory::new();
    history.push("");
    assert!(history.is_empty());
    history.push("ls");
    history.push("ls");
    history.push("");
    assert_eq!(history.previous(), Some("ls"));
    assert_eq!(history.previous(), Some("ls"));
    assert_eq!(history.next(), None);
    history.push("cd");
    history.push("ls");
    assert_eq!(history.previous(), Some("ls"));
    assert_eq!(history.previous(), Some("cd"));
    assert_eq!(history.previous(), Some("ls"));
}

#[test]
fn history_push_resets_the_cursor() {
    let mut history = InputHistory::new();
    history.push("a");
    history.push("b");
    assert_eq!(history.previous(), Some("b"));
    assert_eq!(history.previous(), Some("a"));
    history.push("b");
    assert!(history.is_at_current());
    assert_eq!(history.previous(), Some("b"));
}

#[test]
fn history_keeps_the_last_32_lines() {
    let mut history = InputHistory::new();
    for i in 0..40 {
        history.push(&format!("line {}", i));
    }
    assert_eq!(history.latest(), Some("line 39"));
    let mut seen = Vec::new();
    for _ in 0..32 {
        seen.push(history.previous().unwrap().to_string());
    }
    assert_eq!(seen[0], "line 39");
    assert_eq!(seen[31], "line 8");
    assert_eq!(history.previous(), Some("line 8"));
}

#[test]
fn history_cuts_long_lines_at_128_bytes() {
    let mut history = InputHistory::new();
    let long = "x".repeat(200);
    history.push(&long);
    assert_eq!(history.latest(), Some(&long[..128]));
}

#[test]
fn parse_plain_and_signed_numbers() {
    assert_eq!(parse_int_from_str("0"), Ok(0));
    assert_eq!(parse_int_from_str("42"), Ok(42));
    assert_eq!(parse_int_from_str("+42"), Ok(42));
    assert_eq!(parse_int_from_str("-42"), Ok(-42));
    assert_eq!(parse_int_from_str("007"), Ok(7));
    assert_eq!(parse_int_from_str("-0"), Ok(0));
    assert_eq!(parse_int_from_str("9223372036854775807"), Ok(i64::MAX));
    assert_eq!(parse_int_from_str("-9223372036854775807"), Ok(-i64::MAX));
}

#[test]
fn parse_rejects_bad_input() {
    assert_eq!(parse_int_from_str(""), Err(ParseError::EmptyInput));
    assert_eq!(parse_int_from_str("+"), Err(ParseError::InvalidDigit));
    assert_eq!(parse_int_from_str("-"), Err(ParseError::InvalidDigit));
    assert_eq!(parse_int_from_str("12a"), Err(ParseError::InvalidDigit));
    assert_eq!(parse_int_from_str("a12"), Err(ParseError::InvalidDigit));
    assert_eq!(parse_int_from_str("1 2"), Err(ParseError::InvalidDigit));
    assert_eq!(parse_int_from_str("--1"), Err(ParseError::InvalidDigit));
    assert_eq!(parse_int_from_str("1-"), Err(ParseError::InvalidDigit));
    assert_eq!(parse_int_from_str("٣"), Err(ParseError::InvalidDigit));
    assert_eq!(parse_int_from_str("9223372036854775808"), Err(ParseError::InvalidDigit));
    assert_eq!(parse_int_from_str("-9223372036854775808"), Err(ParseError::InvalidDigit));
    assert_eq!(parse_int_from_str("99999999999999999999999"), Err(ParseError::InvalidDigit));
}

#[test]
fn parse_error_messages() {
    assert_eq!(ParseError::InvalidDigit.as_str(), "input contains a non-digit character");
    assert_eq!(ParseError::EmptyInput.as_str(), "input string is empty");
    assert_eq!(ParseError::InvalidSign.as_str(), "invalid sign placement");
    assert_eq!(ParseError::BufferTooSmall.as_str(), "buffer too small for conversion");
}

fn shown(value: i64) -> String {
    let mut buf = [0u8; 32];
    let n = int_to_str_buf(value, &mut buf).unwrap();
    String::from_utf8(buf[..n].to_vec()).unwrap()
}

#[test]
fn integers_to_text() {
    assert_eq!(shown(0), "0");
    assert_eq!(shown(7), "7");
    assert_eq!(shown(10), "10");
    assert_eq!(shown(-1), "-1");
    assert_eq!(shown(1234567890), "1234567890");
    assert_eq!(shown(i64::MAX), "9223372036854775807");
    assert_eq!(shown(i64::MIN), "-9223372036854775808");
}

#[test]
fn integer_text_needs_room() {
    let mut none: [u8; 0] = [];
    assert_eq!(int_to_str_buf(0, &mut none), Err(ParseError::BufferTooSmall));
    let mut two = [b'#'; 2];
    assert_eq!(int_to_str_buf(123, &mut two), Err(ParseError::BufferTooSmall));
    assert_eq!(two, [b'#'; 2]);
    assert_eq!(int_to_str_buf(-12, &mut two), Err(ParseError::BufferTooSmall));
    assert_eq!(int_to_str_buf(-1, &mut two), Ok(2));
    assert_eq!(&two, b"-1");
    let mut four = [b'#'; 4];
    assert_eq!(int_to_str_buf(45, &mut four), Ok(2));
    assert_eq!(&four, b"45##");
}

#[test]
fn text_and_integers_round_trip() {
    for value in [0i64, 1, -1, 99, -100, 4096, i64::MAX, -i64::MAX] {
        assert_eq!(parse_int_from_str(&shown(value)), Ok(value));
    }
}
