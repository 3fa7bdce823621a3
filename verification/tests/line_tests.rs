use hl::binding::FieldColor;
use hl::errors::ParseError;
use hl::line::{process_line, Options};

fn binding(token: &str) -> FieldColor {
    FieldColor::parse(token).expect("binding must parse")
}

fn options(tokens: &[&str], delim: &str, skip: Option<&str>) -> Options {
    Options {
        fields: tokens.iter().map(|t| binding(t)).collect(),
        delimeter: delim.to_string(),
        skip: skip.map(|s| s.to_string()),
        yellow_size: 20_000_000,
        red_size: 100_000_000,
    }
}

#[test]
fn unbound_lines_round_trip_exactly() {
    let opts = options(&[], " ", None);
    assert_eq!(process_line("hello world\n", &opts).unwrap(), "hello world\n");
    assert_eq!(process_line("", &opts).unwrap(), "");
    assert_eq!(process_line("   \n", &opts).unwrap(), "   \n");
}

#[test]
fn out_of_range_bindings_leave_the_line_unchanged() {
    let opts = options(&["5:red"], " ", None);
    assert_eq!(process_line("a b c\n", &opts).unwrap(), "a b c\n");
}

#[test]
fn negative_bindings_never_color_any_field() {
    let opts = options(&["-1:red"], " ", None);
    assert_eq!(process_line("a b c\n", &opts).unwrap(), "a b c\n");
}

#[test]
fn matched_field_is_wrapped_with_reset() {
    let opts = options(&["0:red"], " ", None);
    // The field keeps its trailing delimiter inside the colored span.
    assert_eq!(
        process_line("a b\n", &opts).unwrap(),
        "\x1b[31ma \x1b[39mb\n"
    );
}

#[test]
fn first_matching_binding_wins_over_duplicates() {
    let opts = options(&["0:red", "0:green"], " ", None);
    assert_eq!(
        process_line("a\n", &opts).unwrap(),
        "\x1b[31ma\n\x1b[39m"
    );
}

#[test]
fn multi_character_delimiters_split_inclusively() {
    let opts = options(&["1:blue"], "--", None);
    assert_eq!(
        process_line("x--y--z", &opts).unwrap(),
        "x--\x1b[34my--\x1b[39mz"
    );
}

#[test]
fn skip_passes_the_prefix_through_unmodified() {
    let opts = options(&["0:red"], " ", Some(": "));
    let out = process_line("cpu family  : 6\n", &opts).unwrap();
    assert!(out.starts_with("cpu family  : "));
    assert_eq!(out, "cpu family  : \x1b[31m6\n\x1b[39m");
}

#[test]
fn missing_skip_pattern_aborts_the_line() {
    let opts = options(&[], " ", Some(": "));
    assert!(matches!(
        process_line("no colon here\n", &opts),
        Err(ParseError::SkipPatternNotFound)
    ));
}

#[test]
fn size_bound_fields_resolve_by_byte_count() {
    let opts = options(&["1:size"], " ", None);
    // ~126 MB: above the red threshold.
    assert_eq!(
        process_line("linux 131672735\n", &opts).unwrap(),
        "linux \x1b[31m131672735\n\x1b[39m"
    );
    // ~52 kB: below the yellow threshold.
    assert_eq!(
        process_line("dmenu 52591\n", &opts).unwrap(),
        "dmenu \x1b[32m52591\n\x1b[39m"
    );
}

#[test]
fn unparsable_size_field_aborts_the_line() {
    let opts = options(&["1:size"], " ", None);
    assert!(matches!(
        process_line("linux abc\n", &opts),
        Err(ParseError::IntParseError)
    ));
}

#[test]
fn default_options_pass_lines_through() {
    let opts = Options::default();
    assert_eq!(opts.delimeter, " ");
    assert_eq!(opts.red_size, 100_000_000);
    assert_eq!(opts.yellow_size, 20_000_000);
    assert_eq!(process_line("a b\n", &opts).unwrap(), "a b\n");
}

#[test]
fn error_messages_describe_the_failure() {
    let opts = options(&[], " ", Some(": "));
    let err = process_line("nope\n", &opts).unwrap_err();
    assert_eq!(err.message(), "skip not found");
    assert_eq!(
        hl::color::Color::parse("notacolor").unwrap_err().message(),
        "unknown color notacolor"
    );
}
