//! The error type shared by the color grammar, the field-binding parser,
//! the size classifier and the line processor.

use vstd::prelude::*;
use vstd::string::StringExecFns;

verus! {

/// Why a color description, a field binding, a numeric field or a line
/// could not be handled.  No error is recovered locally: configuration
/// errors abort before any line is processed, and per-line errors abort
/// the whole run.
#[derive(Debug)]
pub enum ParseError {
    /// The color description matched no production of the grammar.
    UnknownColor(String),
    /// A field binding had no `:` between the field index and the color.
    MissingColonField,
    /// A decimal number (field index, `fixed` argument, `rgb` component,
    /// or size field text) could not be parsed.
    IntParseError,
    /// A color value that cannot be rendered directly was rendered.
    AnsiFmtError,
    /// The configured skip pattern did not occur in the line.
    SkipPatternNotFound,
}

impl ParseError {
    /// A human-readable description of the error.
    pub fn message(&self) -> (r: String)
        ensures
            self matches ParseError::UnknownColor(t) ==> r@ == "unknown color "@ + t@,
            self is MissingColonField ==> r@ == "missing : between field and color"@,
            self is IntParseError ==> r@ == "invalid number"@,
            self is AnsiFmtError ==> r@ == "ANSI fmt error"@,
            self is SkipPatternNotFound ==> r@ == "skip not found"@,
    {
        match self {
            ParseError::UnknownColor(t) => String::from_str("unknown color ").concat(
                t.as_str(),
            ),
            ParseError::MissingColonField => String::from_str(
                "missing : between field and color",
            ),
            ParseError::IntParseError => String::from_str("invalid number"),
            ParseError::AnsiFmtError => String::from_str("ANSI fmt error"),
            ParseError::SkipPatternNotFound => String::from_str("skip not found"),
        }
    }
}

} // verus!
