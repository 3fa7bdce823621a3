//! The color grammar: parsing a color description into a [`Color`] and
//! rendering it as a terminal escape sequence.
//!
//! Accepted descriptions are the eight standard color names plus
//! `default`, `fixed(N)` for the 256-color palette, `rgb(R,G,B)` for
//! truecolor, and `size` for size-conditional coloring.

use vstd::prelude::*;
use crate::errors::ParseError;
use crate::numbers::{dec_digits, spec_parse_u64, parse_u64_chars, u64_to_chars};
use crate::text::{
    copy_range, chars_eq, find_from, is_match_at, spec_find, string_from_chars, to_chars,
};

verus! {

/// A field color: either a complete foreground SGR escape sequence, or
/// the marker that the actual color is resolved per field from a byte
/// size.  No partial escape text is ever constructed: parsing either
/// yields a complete sequence or fails.
#[derive(Debug)]
pub enum Color {
    /// A precomputed escape sequence, terminated with the SGR suffix.
    Ansi(String),
    /// Resolve a concrete color at apply time from the field's numeric
    /// byte size.  Never directly renderable.
    Size,
}

/// The foreground SGR sequence with the given code between the `ESC [ 3`
/// prefix and the `m` suffix.  (The `3` selects the foreground family;
/// a background variant would use `4` in its place.)
pub open spec fn ansi_of(code: Seq<char>) -> Seq<char> {
    "\x1b[3"@ + code + "m"@
}

/// The code character of a named standard color, if the text is one.
pub open spec fn named_code(s: Seq<char>) -> Option<char> {
    if s == "default"@ {
        Some('9')
    } else if s == "black"@ {
        Some('0')
    } else if s == "red"@ {
        Some('1')
    } else if s == "green"@ {
        Some('2')
    } else if s == "yellow"@ {
        Some('3')
    } else if s == "blue"@ {
        Some('4')
    } else if s == "magenta"@ {
        Some('5')
    } else if s == "cyan"@ {
        Some('6')
    } else if s == "white"@ {
        Some('7')
    } else {
        None
    }
}

/// `s` has the shape `fixed(…)`.
pub open spec fn is_fixed_form(s: Seq<char>) -> bool {
    let p = "fixed("@;
    s.len() > p.len() && s.take(p.len() as int) == p && s.last() == ')'
}

/// The text between `fixed(` and the closing parenthesis.
pub open spec fn fixed_arg(s: Seq<char>) -> Seq<char> {
    s.subrange("fixed("@.len() as int, s.len() - 1)
}

/// The number of occurrences of `c` in `s`.
pub open spec fn count_char(s: Seq<char>, c: char) -> nat
    decreases s.len(),
{
    if s.len() == 0 {
        0
    } else {
        count_char(s.drop_last(), c) + (if s.last() == c {
            1nat
        } else {
            0nat
        })
    }
}

/// `s` has the shape `rgb(…)` with exactly two commas.
pub open spec fn is_rgb_form(s: Seq<char>) -> bool {
    let p = "rgb("@;
    s.len() > p.len() && s.take(p.len() as int) == p && count_char(s, ',') == 2 && s.last()
        == ')'
}

/// The text between `rgb(` and the closing parenthesis.
pub open spec fn rgb_content(s: Seq<char>) -> Seq<char> {
    s.subrange("rgb("@.len() as int, s.len() - 1)
}

/// The three comma-separated parts of an `rgb` argument list: the split
/// happens at the first two commas, and the third part keeps the rest.
pub open spec fn rgb_split(content: Seq<char>) -> (Seq<char>, Seq<char>, Seq<char>) {
    match spec_find(content, seq![',']) {
        None => (content, Seq::empty(), Seq::empty()),
        Some(i1) => {
            let p1 = content.take(i1);
            let r1 = content.skip(i1 + 1);
            match spec_find(r1, seq![',']) {
                None => (p1, r1, Seq::empty()),
                Some(i2) => (p1, r1.take(i2), r1.skip(i2 + 1)),
            }
        },
    }
}

/// The escape code of a 256-color-palette foreground color.
pub open spec fn fixed_code(n: nat) -> Seq<char> {
    "8;5;"@ + dec_digits(n)
}

/// The escape code of a 24-bit truecolor foreground color.
pub open spec fn rgb_code(r: nat, g: nat, b: nat) -> Seq<char> {
    "8;2;"@ + dec_digits(r) + ";"@ + dec_digits(g) + ";"@ + dec_digits(b)
}

/// What parsing the color description `s` yields: the productions of the
/// grammar tried in order, ending in `UnknownColor` when none applies.
pub open spec fn color_parse_result(s: Seq<char>, r: Result<Color, ParseError>) -> bool {
    &&& (named_code(s) matches Some(c) ==> r matches Ok(col) && col matches Color::Ansi(a)
        && a@ == ansi_of(seq![c]))
    &&& (named_code(s) is None && is_fixed_form(s) ==> (match spec_parse_u64(fixed_arg(s)) {
        Some(n) => r matches Ok(col) && col matches Color::Ansi(a) && a@ == ansi_of(
            fixed_code(n as nat),
        ),
        None => r matches Err(ParseError::IntParseError),
    }))
    &&& (named_code(s) is None && !is_fixed_form(s) && is_rgb_form(s) ==> ({
        let (p1, p2, p3) = rgb_split(rgb_content(s));
        match (spec_parse_u64(p1), spec_parse_u64(p2), spec_parse_u64(p3)) {
            (Some(rr), Some(gg), Some(bb)) => r matches Ok(col) && col matches Color::Ansi(a)
                && a@ == ansi_of(rgb_code(rr as nat, gg as nat, bb as nat)),
            _ => r matches Err(ParseError::IntParseError),
        }
    }))
    &&& (named_code(s) is None && !is_fixed_form(s) && !is_rgb_form(s) && s == "size"@
        ==> (r matches Ok(col) && col is Size))
    &&& (named_code(s) is None && !is_fixed_form(s) && !is_rgb_form(s) && s != "size"@
        ==> (r matches Err(ParseError::UnknownColor(t)) && t@ == s))
}

/// Build the full escape sequence around a code.
pub(crate) fn make_ansi(code: &Vec<char>) -> (r: String)
    ensures
        r@ == ansi_of(code@),
{
    let mut v = to_chars("\x1b[3");
    let mut i: usize = 0;
    while i < code.len()
        invariant
            i <= code@.len(),
            v@ == "\x1b[3"@ + code@.take(i as int),
        decreases code@.len() - i,
    {
        v.push(code[i]);
        i = i + 1;
        proof {
            assert(v@ =~= "\x1b[3"@ + code@.take(i as int));
        }
    }
    let mut suffix = to_chars("m");
    v.append(&mut suffix);
    proof {
        assert(code@.take(code@.len() as int) =~= code@);
        assert(v@ =~= ansi_of(code@));
    }
    string_from_chars(v)
}

/// Look up a named standard color.
fn named_lookup(chars: &Vec<char>) -> (r: Option<char>)
    ensures
        r == named_code(chars@),
{
    if chars_eq(chars, &to_chars("default")) {
        Some('9')
    } else if chars_eq(chars, &to_chars("black")) {
        Some('0')
    } else if chars_eq(chars, &to_chars("red")) {
        Some('1')
    } else if chars_eq(chars, &to_chars("green")) {
        Some('2')
    } else if chars_eq(chars, &to_chars("yellow")) {
        Some('3')
    } else if chars_eq(chars, &to_chars("blue")) {
        Some('4')
    } else if chars_eq(chars, &to_chars("magenta")) {
        Some('5')
    } else if chars_eq(chars, &to_chars("cyan")) {
        Some('6')
    } else if chars_eq(chars, &to_chars("white")) {
        Some('7')
    } else {
        None
    }
}

/// The number of occurrences of `c` among the characters of `s`.
fn count_eq(s: &Vec<char>, c: char) -> (r: usize)
    ensures
        r == count_char(s@, c),
{
    let mut cnt: usize = 0;
    let mut i: usize = 0;
    proof {
        assert(s@.take(0) =~= Seq::<char>::empty());
    }
    while i < s.len()
        invariant
            i <= s@.len(),
            cnt <= i,
            cnt == count_char(s@.take(i as int), c),
        decreases s@.len() - i,
    {
        proof {
            assert(s@.take(i + 1).drop_last() =~= s@.take(i as int));
            assert(s@.take(i + 1).last() == s@[i as int]);
        }
        if s[i] == c {
            cnt = cnt + 1;
        }
        i = i + 1;
    }
    proof {
        assert(s@.take(s@.len() as int) =~= s@);
    }
    cnt
}

impl Color {
    /// Parse a color description.
    ///
    /// Named colors map to their standard foreground sequence; `fixed(N)`
    /// and `rgb(R,G,B)` to palette and truecolor sequences; `size` to the
    /// size-conditional marker; anything else fails with `UnknownColor`,
    /// and a malformed number inside `fixed`/`rgb` with `IntParseError`.
    pub fn parse(input: &str) -> (r: Result<Color, ParseError>)
        ensures
            color_parse_result(input@, r),
    {
        let chars = to_chars(input);
        match named_lookup(&chars) {
            Some(c) => {
                let mut code: Vec<char> = Vec::new();
                code.push(c);
                proof {
                    assert(code@ =~= seq![c]);
                }
                return Ok(Color::Ansi(make_ansi(&code)));
            },
            None => {},
        }
        let fx = to_chars("fixed(");
        proof {
            assert(chars@.take(fx@.len() as int) =~= chars@.subrange(0, fx@.len() as int));
        }
        let is_fixed = chars.len() > fx.len() && is_match_at(&chars, &fx, 0) && chars[chars.len()
            - 1] == ')';
        if is_fixed {
            let arg = copy_range(&chars, fx.len(), chars.len() - 1);
            assert(arg@ == fixed_arg(chars@));
            match parse_u64_chars(&arg) {
                None => {
                    return Err(ParseError::IntParseError);
                },
                Some(n) => {
                    let mut code = to_chars("8;5;");
                    let mut ds = u64_to_chars(n);
                    code.append(&mut ds);
                    proof {
                        assert(code@ =~= fixed_code(n as nat));
                    }
                    return Ok(Color::Ansi(make_ansi(&code)));
                },
            }
        }
        let rg = to_chars("rgb(");
        proof {
            assert(chars@.take(rg@.len() as int) =~= chars@.subrange(0, rg@.len() as int));
        }
        let is_rgb = chars.len() > rg.len() && is_match_at(&chars, &rg, 0) && count_eq(
            &chars,
            ',',
        ) == 2 && chars[chars.len() - 1] == ')';
        if is_rgb {
            let content = copy_range(&chars, rg.len(), chars.len() - 1);
            assert(content@ == rgb_content(chars@));
            let mut comma: Vec<char> = Vec::new();
            comma.push(',');
            proof {
                assert(comma@ =~= seq![',']);
            }
            let p1: Vec<char>;
            let mut p2: Vec<char> = Vec::new();
            let mut p3: Vec<char> = Vec::new();
            proof {
                assert(content@.skip(0) =~= content@);
            }
            match find_from(&content, &comma, 0) {
                None => {
                    p1 = content;
                },
                Some(i1) => {
                    p1 = copy_range(&content, 0, i1);
                    let r1 = copy_range(&content, i1 + 1, content.len());
                    proof {
                        assert(p1@ =~= content@.take(i1 as int));
                        assert(r1@ =~= content@.skip(i1 + 1));
                        assert(r1@.skip(0) =~= r1@);
                    }
                    match find_from(&r1, &comma, 0) {
                        None => {
                            p2 = r1;
                        },
                        Some(i2) => {
                            p2 = copy_range(&r1, 0, i2);
                            p3 = copy_range(&r1, i2 + 1, r1.len());
                            proof {
                                assert(p2@ =~= r1@.take(i2 as int));
                                assert(p3@ =~= r1@.skip(i2 + 1));
                            }
                        },
                    }
                },
            }
            assert((p1@, p2@, p3@) == rgb_split(rgb_content(chars@)));
            let n1 = parse_u64_chars(&p1);
            let n2 = parse_u64_chars(&p2);
            let n3 = parse_u64_chars(&p3);
            match (n1, n2, n3) {
                (Some(rr), Some(gg), Some(bb)) => {
                    let mut code = to_chars("8;2;");
                    let mut ds1 = u64_to_chars(rr);
                    code.append(&mut ds1);
                    let mut sep1 = to_chars(";");
                    code.append(&mut sep1);
                    let mut ds2 = u64_to_chars(gg);
                    code.append(&mut ds2);
                    let mut sep2 = to_chars(";");
                    code.append(&mut sep2);
                    let mut ds3 = u64_to_chars(bb);
                    code.append(&mut ds3);
                    proof {
                        assert(code@ =~= rgb_code(rr as nat, gg as nat, bb as nat));
                    }
                    return Ok(Color::Ansi(make_ansi(&code)));
                },
                _ => {
                    return Err(ParseError::IntParseError);
                },
            }
        }
        if chars_eq(&chars, &to_chars("size")) {
            return Ok(Color::Size);
        }
        Err(ParseError::UnknownColor(input.to_owned()))
    }

    /// Render the color as the text to write before a field.
    ///
    /// An `Ansi` color renders as its stored sequence verbatim; the
    /// `Size` marker is not directly renderable and fails distinctly.
    pub fn render(&self) -> (r: Result<String, ParseError>)
        ensures
            self matches Color::Ansi(a) ==> r matches Ok(t) && t@ == a@,
            self is Size ==> r matches Err(ParseError::AnsiFmtError),
    {
        match self {
            Color::Ansi(a) => Ok(a.clone()),
            Color::Size => Err(ParseError::AnsiFmtError),
        }
    }
}

} // verus!
