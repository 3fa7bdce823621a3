use hl::color::Color;
use hl::errors::ParseError;
use hl::size::{classify_bytes, classify_size};

const RED: u64 = 100_000_000;
const YELLOW: u64 = 20_000_000;

fn code_of(c: Color) -> String {
    match c {
        Color::Ansi(a) => a,
        Color::Size => panic!("classification must yield a concrete color"),
    }
}

#[test]
fn thresholds_compare_strictly_greater_than() {
    // Exactly at the red threshold: not red, classified yellow.
    assert_eq!(code_of(classify_bytes(RED, RED, YELLOW)), "\x1b[33m");
    // One byte above the red threshold: red.
    assert_eq!(code_of(classify_bytes(RED + 1, RED, YELLOW)), "\x1b[31m");
    // Zero bytes: green.
    assert_eq!(code_of(classify_bytes(0, RED, YELLOW)), "\x1b[32m");
    // Exactly at the yellow threshold: green.
    assert_eq!(code_of(classify_bytes(YELLOW, RED, YELLOW)), "\x1b[32m");
    assert_eq!(code_of(classify_bytes(YELLOW + 1, RED, YELLOW)), "\x1b[33m");
}

#[test]
fn bare_byte_counts_classify_through_the_parser() {
    match classify_size("131672735", RED, YELLOW) {
        Ok(c) => assert_eq!(code_of(c), "\x1b[31m"),
        other => panic!("expected a color, got {:?}", other),
    }
    match classify_size("52591", RED, YELLOW) {
        Ok(c) => assert_eq!(code_of(c), "\x1b[32m"),
        other => panic!("expected a color, got {:?}", other),
    }
}

#[test]
fn surrounding_whitespace_is_trimmed_before_parsing() {
    match classify_size("  131672735 \n", RED, YELLOW) {
        Ok(c) => assert_eq!(code_of(c), "\x1b[31m"),
        other => panic!("expected a color, got {:?}", other),
    }
}

#[test]
fn human_readable_sizes_are_accepted() {
    match classify_size("126M", RED, YELLOW) {
        Ok(c) => assert_eq!(code_of(c), "\x1b[31m"),
        other => panic!("expected a color, got {:?}", other),
    }
}

#[test]
fn unparsable_size_text_fails_as_int_error() {
    assert!(matches!(
        classify_size("nonsense", RED, YELLOW),
        Err(ParseError::IntParseError)
    ));
    assert!(matches!(
        classify_size("", RED, YELLOW),
        Err(ParseError::IntParseError)
    ));
}
