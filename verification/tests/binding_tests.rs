use hl::binding::FieldColor;
use hl::color::Color;
use hl::errors::ParseError;

#[test]
fn binding_without_colon_fails_with_missing_colon() {
    assert!(matches!(
        FieldColor::parse("1green"),
        Err(ParseError::MissingColonField)
    ));
}

#[test]
fn binding_splits_on_the_first_colon_only() {
    match FieldColor::parse("2:blue") {
        Ok(fc) => {
            assert_eq!(fc.field, 2);
            match fc.color {
                Color::Ansi(a) => assert_eq!(a, "\x1b[34m"),
                other => panic!("expected Ansi, got {:?}", other),
            }
        }
        other => panic!("expected a binding, got {:?}", other),
    }
    // A colon inside the color half belongs to the color text.
    assert!(matches!(
        FieldColor::parse("2:no:color"),
        Err(ParseError::UnknownColor(_))
    ));
}

#[test]
fn negative_field_index_is_accepted_at_parse_time() {
    match FieldColor::parse("-1:red") {
        Ok(fc) => assert_eq!(fc.field, -1),
        other => panic!("expected a binding, got {:?}", other),
    }
}

#[test]
fn bad_field_index_fails_as_int_error() {
    assert!(matches!(
        FieldColor::parse("x:red"),
        Err(ParseError::IntParseError)
    ));
    assert!(matches!(
        FieldColor::parse(":red"),
        Err(ParseError::IntParseError)
    ));
}

#[test]
fn size_binding_parses_when_enabled() {
    match FieldColor::parse("1:size") {
        Ok(fc) => {
            assert_eq!(fc.field, 1);
            assert!(matches!(fc.color, Color::Size));
        }
        other => panic!("expected a binding, got {:?}", other),
    }
}
