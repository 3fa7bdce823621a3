//! Field-color bindings: a `FIELD:COLOR` token names a zero-based field
//! position and the color to wrap that field in.

use vstd::prelude::*;
use crate::color::{color_parse_result, Color};
use crate::errors::ParseError;
use crate::numbers::{parse_i64_chars, spec_parse_i64};
use crate::text::{copy_range, find_from, spec_find, string_from_chars, to_chars};

verus! {

/// A binding of a field position to a color.  Positions are zero-based;
/// a negative position is syntactically legal but never matches any
/// field.
#[derive(Debug)]
pub struct FieldColor {
    /// The field position the color applies to.
    pub field: i64,
    /// The color to wrap the field in.
    pub color: Color,
}

impl FieldColor {
    /// Parse a `FIELD:COLOR` token.
    ///
    /// The token splits at its first colon only, so colons may appear
    /// inside the color half.  A token without a colon fails with
    /// `MissingColonField`; the field half parses as a signed integer
    /// and the color half follows the color grammar.
    pub fn parse(input: &str) -> (r: Result<FieldColor, ParseError>)
        ensures
            ({
                let s = input@;
                match spec_find(s, seq![':']) {
                    None => r matches Err(ParseError::MissingColonField),
                    Some(i) => ({
                        let fpart = s.take(i);
                        let cpart = s.skip(i + 1);
                        match spec_parse_i64(fpart) {
                            None => r matches Err(ParseError::IntParseError),
                            Some(v) => {
                                &&& (r matches Ok(fc) ==> fc.field == v && color_parse_result(
                                    cpart,
                                    Ok(fc.color),
                                ))
                                &&& (r matches Err(e) ==> color_parse_result(cpart, Err(e)))
                            },
                        }
                    }),
                }
            }),
    {
        let chars = to_chars(input);
        let mut colon: Vec<char> = Vec::new();
        colon.push(':');
        proof {
            assert(colon@ =~= seq![':']);
            assert(chars@.skip(0) =~= chars@);
        }
        match find_from(&chars, &colon, 0) {
            None => Err(ParseError::MissingColonField),
            Some(i) => {
                let n = chars.len();
                let fpart = copy_range(&chars, 0, i);
                let cpart = copy_range(&chars, i + 1, n);
                proof {
                    assert(fpart@ =~= chars@.take(i as int));
                    assert(cpart@ =~= chars@.skip(i + 1));
                }
                match parse_i64_chars(&fpart) {
                    None => Err(ParseError::IntParseError),
                    Some(v) => {
                        let cs = string_from_chars(cpart);
                        match Color::parse(cs.as_str()) {
                            Ok(c) => Ok(FieldColor { field: v, color: c }),
                            Err(e) => Err(e),
                        }
                    },
                }
            },
        }
    }
}

} // verus!
