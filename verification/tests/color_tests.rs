use hl::color::Color;
use hl::errors::ParseError;

fn expect_ansi(input: &str) -> String {
    match Color::parse(input) {
        Ok(Color::Ansi(a)) => a,
        other => panic!("expected an Ansi color for {:?}, got {:?}", input, other),
    }
}

#[test]
fn named_colors_parse_to_standard_sequences() {
    assert_eq!(expect_ansi("default"), "\x1b[39m");
    assert_eq!(expect_ansi("black"), "\x1b[30m");
    assert_eq!(expect_ansi("red"), "\x1b[31m");
    assert_eq!(expect_ansi("green"), "\x1b[32m");
    assert_eq!(expect_ansi("yellow"), "\x1b[33m");
    assert_eq!(expect_ansi("blue"), "\x1b[34m");
    assert_eq!(expect_ansi("magenta"), "\x1b[35m");
    assert_eq!(expect_ansi("cyan"), "\x1b[36m");
    assert_eq!(expect_ansi("white"), "\x1b[37m");
}

#[test]
fn fixed_parses_to_palette_sequence() {
    assert_eq!(expect_ansi("fixed(200)"), "\x1b[38;5;200m");
    assert_eq!(expect_ansi("fixed(0)"), "\x1b[38;5;0m");
}

#[test]
fn rgb_parses_to_truecolor_sequence() {
    let a = expect_ansi("rgb(1,2,3)");
    assert_eq!(a, "\x1b[38;2;1;2;3m");
    let p1 = a.find('1').unwrap();
    let p2 = a[p1..].find('2').map(|i| i + p1).unwrap();
    let p3 = a[p2..].find('3').map(|i| i + p2).unwrap();
    assert!(p1 < p2 && p2 < p3);
}

#[test]
fn unknown_color_is_rejected_with_its_text() {
    match Color::parse("notacolor") {
        Err(ParseError::UnknownColor(t)) => assert_eq!(t, "notacolor"),
        other => panic!("expected UnknownColor, got {:?}", other),
    }
}

#[test]
fn size_parses_to_the_conditional_marker() {
    assert!(matches!(Color::parse("size"), Ok(Color::Size)));
}

#[test]
fn bad_numbers_in_fixed_and_rgb_fail_as_int_errors() {
    assert!(matches!(Color::parse("fixed(x)"), Err(ParseError::IntParseError)));
    assert!(matches!(Color::parse("fixed()"), Err(ParseError::IntParseError)));
    assert!(matches!(Color::parse("rgb(1,2,x)"), Err(ParseError::IntParseError)));
}

#[test]
fn malformed_fixed_and_rgb_fall_through_to_unknown() {
    assert!(matches!(Color::parse("fixed(5"), Err(ParseError::UnknownColor(_))));
    assert!(matches!(Color::parse("rgb(1,2)"), Err(ParseError::UnknownColor(_))));
    assert!(matches!(Color::parse("rgb(1,2,3"), Err(ParseError::UnknownColor(_))));
}

#[test]
fn ansi_renders_verbatim_and_size_fails_distinctly() {
    match Color::parse("cyan") {
        Ok(c) => assert_eq!(c.render().unwrap(), "\x1b[36m"),
        other => panic!("expected a color, got {:?}", other),
    }
    assert!(matches!(Color::Size.render(), Err(ParseError::AnsiFmtError)));
}
