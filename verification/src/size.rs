//! The size classifier: a byte-count field text resolves to a concrete
//! color by comparing the parsed size against two thresholds.

use vstd::prelude::*;
use crate::color::{ansi_of, make_ansi, Color};
use crate::errors::ParseError;
use crate::numbers::spec_parse_u64;
use crate::text::{string_from_chars, to_chars, trim_chars, trim_spec};

verus! {

/// The number of bytes that a size text denotes, if it denotes one:
/// what `bytesize` parses the text to.  A bare decimal byte count is
/// always accepted (see `parse_size`); human-readable forms such as
/// `"1.5 MiB"` are accepted as well, and anything else is `None`.
pub uninterp spec fn size_of_text(s: Seq<char>) -> Option<u64>;

/// Parse a size text into a byte count.
///
/// Relies on `bytesize::ByteSize`'s `FromStr` together with
/// `ByteSize::as_u64`: the result is a function of the characters alone,
/// and a text that parses as a plain `u64` (its `FromStr` is tried
/// first) yields exactly that value in bytes.
#[verifier::external_body]
fn parse_size(s: &str) -> (r: Option<u64>)
    ensures
        r == size_of_text(s@),
        spec_parse_u64(s@) matches Some(n) ==> r == Some(n),
{
    match s.parse::<bytesize::ByteSize>() {
        Ok(b) => Some(b.as_u64()),
        Err(_) => None,
    }
}

/// The escape sequence a byte count resolves to: red above the red
/// threshold, yellow above the yellow threshold, green otherwise, with
/// both comparisons strictly greater-than.
pub open spec fn classify_code(n: u64, red: u64, yellow: u64) -> Seq<char> {
    if n > red {
        ansi_of(seq!['1'])
    } else if n > yellow {
        ansi_of(seq!['3'])
    } else {
        ansi_of(seq!['2'])
    }
}

/// Resolve a byte count against the two thresholds.
///
/// A size strictly above `red` is red; otherwise strictly above
/// `yellow` is yellow; otherwise green.  A size exactly at a threshold
/// thus falls to the lower class.
pub fn classify_bytes(size: u64, red: u64, yellow: u64) -> (r: Color)
    ensures
        r matches Color::Ansi(a) && a@ == classify_code(size, red, yellow),
{
    let mut code: Vec<char> = Vec::new();
    if size > red {
        code.push('1');
    } else if size > yellow {
        code.push('3');
    } else {
        code.push('2');
    }
    proof {
        assert(code@ =~= seq![code@[0]]);
    }
    Color::Ansi(make_ansi(&code))
}

/// Classify a size field: trim the text, parse it as a byte count, and
/// resolve the count against the thresholds.  A text that does not
/// denote a size fails with `IntParseError`.
pub fn classify_size(text: &str, red: u64, yellow: u64) -> (r: Result<Color, ParseError>)
    ensures
        match size_of_text(trim_spec(text@)) {
            None => r matches Err(ParseError::IntParseError),
            Some(n) => r matches Ok(c) && c matches Color::Ansi(a) && a@ == classify_code(
                n,
                red,
                yellow,
            ),
        },
{
    let chars = to_chars(text);
    let trimmed = trim_chars(&chars);
    let ts = string_from_chars(trimmed);
    match parse_size(ts.as_str()) {
        None => Err(ParseError::IntParseError),
        Some(n) => Ok(classify_bytes(n, red, yellow)),
    }
}

} // verus!
