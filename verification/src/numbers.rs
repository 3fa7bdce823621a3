//! Decimal parsing and rendering over character sequences.
//!
//! The parsers mirror the grammar of Rust's integer `FromStr`: an optional
//! sign followed by one or more ASCII digits, rejecting anything else and
//! any value outside the target type's range.

use vstd::prelude::*;

verus! {

/// `c` is an ASCII decimal digit.
pub open spec fn is_digit(c: char) -> bool {
    '0' <= c && c <= '9'
}

/// The numeric value of a digit character.
pub open spec fn digit_val(c: char) -> nat {
    (c as int - '0' as int) as nat
}

/// Every character of `s` is an ASCII decimal digit.
pub open spec fn all_digits(s: Seq<char>) -> bool {
    forall|i: int| 0 <= i < s.len() ==> is_digit(#[trigger] s[i])
}

/// The value of a digit string read in base 10 (0 for the empty string).
pub open spec fn dec_val(s: Seq<char>) -> nat
    decreases s.len(),
{
    if s.len() == 0 {
        0
    } else {
        dec_val(s.drop_last()) * 10 + digit_val(s.last())
    }
}

/// The digit character for a value below ten.
pub open spec fn digit_char(d: nat) -> char {
    if d == 0 {
        '0'
    } else if d == 1 {
        '1'
    } else if d == 2 {
        '2'
    } else if d == 3 {
        '3'
    } else if d == 4 {
        '4'
    } else if d == 5 {
        '5'
    } else if d == 6 {
        '6'
    } else if d == 7 {
        '7'
    } else if d == 8 {
        '8'
    } else {
        '9'
    }
}

/// The canonical decimal rendering of `n`: no sign, no leading zeros
/// (a single `'0'` for zero).
pub open spec fn dec_digits(n: nat) -> Seq<char>
    decreases n,
{
    if n < 10 {
        seq![digit_char(n)]
    } else {
        dec_digits(n / 10).push(digit_char(n % 10))
    }
}

/// What a bare digit run denotes: its value, if it is non-empty, all
/// digits, and fits in a `u64`.
pub open spec fn spec_parse_digits(d: Seq<char>) -> Option<u64> {
    if d.len() > 0 && all_digits(d) && dec_val(d) <= u64::MAX {
        Some(dec_val(d) as u64)
    } else {
        None
    }
}

/// The result of parsing `s` as an unsigned decimal number: an optional
/// leading `'+'`, then digits, with the value at most `u64::MAX`.
pub open spec fn spec_parse_u64(s: Seq<char>) -> Option<u64> {
    if s.len() > 0 && s[0] == '+' {
        spec_parse_digits(s.drop_first())
    } else {
        spec_parse_digits(s)
    }
}

/// The result of parsing `s` as a signed decimal number: an optional
/// leading `'+'` or `'-'`, then digits, with the value within `i64` range.
pub open spec fn spec_parse_i64(s: Seq<char>) -> Option<i64> {
    let neg = s.len() > 0 && s[0] == '-';
    let digits = if s.len() > 0 && (s[0] == '-' || s[0] == '+') {
        s.drop_first()
    } else {
        s
    };
    if digits.len() > 0 && all_digits(digits) {
        let v = dec_val(digits);
        if neg && v <= i64::MAX as nat + 1 {
            Some((-(v as int)) as i64)
        } else if !neg && v <= i64::MAX as nat {
            Some(v as i64)
        } else {
            None
        }
    } else {
        None
    }
}

/// A digit string's value only grows as digits are appended: the value of
/// a prefix never exceeds the value of the whole.
pub proof fn lemma_dec_val_prefix(s: Seq<char>, i: int)
    requires
        0 <= i <= s.len(),
    ensures
        dec_val(s.take(i)) <= dec_val(s),
    decreases s.len(),
{
    if i < s.len() {
        assert(s.drop_last().take(i) =~= s.take(i));
        lemma_dec_val_prefix(s.drop_last(), i);
        assert(dec_val(s.drop_last()) <= dec_val(s.drop_last()) * 10);
    } else {
        assert(s.take(i) =~= s);
    }
}

/// Parse the digit run `s[start..]` as a decimal value.
fn parse_digits_from(s: &Vec<char>, start: usize) -> (r: Option<u64>)
    requires
        start <= s@.len(),
    ensures
        r == spec_parse_digits(s@.skip(start as int)),
{
    let ghost digits = s@.skip(start as int);
    if start == s.len() {
        return None;
    }
    let mut acc: u128 = 0;
    let mut i: usize = start;
    while i < s.len()
        invariant
            start <= i <= s@.len(),
            digits == s@.skip(start as int),
            start < s@.len(),
            all_digits(s@.subrange(start as int, i as int)),
            acc == dec_val(s@.subrange(start as int, i as int)),
            acc <= u64::MAX,
        decreases s@.len() - i,
    {
        let c = s[i];
        if c < '0' || c > '9' {
            assert(!is_digit(digits[i - start]));
            return None;
        }
        assert(is_digit(c));
        let d: u128 = (c as u32 - '0' as u32) as u128;
        proof {
            assert(d == digit_val(c));
            assert(s@.subrange(start as int, i + 1 as int) =~= s@.subrange(
                start as int,
                i as int,
            ).push(c));
            assert(s@.subrange(start as int, i as int).push(c).drop_last() =~= s@.subrange(
                start as int,
                i as int,
            ));
        }
        acc = acc * 10 + d;
        i = i + 1;
        assert(acc == dec_val(s@.subrange(start as int, i as int)));
        if acc > u64::MAX as u128 {
            proof {
                if all_digits(digits) {
                    lemma_dec_val_prefix(digits, i - start);
                    assert(digits.take(i - start) =~= s@.subrange(start as int, i as int));
                    assert(dec_val(digits) > u64::MAX);
                }
            }
            return None;
        }
    }
    proof {
        assert(s@.subrange(start as int, i as int) =~= digits);
    }
    Some(acc as u64)
}

/// Parse `s` as an unsigned decimal number, mirroring `spec_parse_u64`.
pub fn parse_u64_chars(s: &Vec<char>) -> (r: Option<u64>)
    ensures
        r == spec_parse_u64(s@),
{
    if s.len() > 0 && s[0] == '+' {
        proof {
            assert(s@.skip(1) =~= s@.drop_first());
        }
        parse_digits_from(s, 1)
    } else {
        proof {
            assert(s@.skip(0) =~= s@);
        }
        parse_digits_from(s, 0)
    }
}

/// Parse `s` as a signed decimal number, mirroring `spec_parse_i64`.
pub fn parse_i64_chars(s: &Vec<char>) -> (r: Option<i64>)
    ensures
        r == spec_parse_i64(s@),
{
    let mut neg: bool = false;
    let mut start: usize = 0;
    if s.len() > 0 && s[0] == '-' {
        neg = true;
        start = 1;
    } else if s.len() > 0 && s[0] == '+' {
        start = 1;
    }
    proof {
        if start == 1 {
            assert(s@.skip(1) =~= s@.drop_first());
        } else {
            assert(s@.skip(0) =~= s@);
        }
    }
    let mag = parse_digits_from(s, start);
    match mag {
        None => None,
        Some(m) => {
            if neg {
                if m > i64::MAX as u64 {
                    if m == (i64::MAX as u64) + 1 {
                        Some(i64::MIN)
                    } else {
                        None
                    }
                } else {
                    Some(-(m as i64))
                }
            } else {
                if m > i64::MAX as u64 {
                    None
                } else {
                    Some(m as i64)
                }
            }
        },
    }
}

/// The digit character for an execution-time value below ten.
fn digit_char_exec(d: u64) -> (r: char)
    requires
        d < 10,
    ensures
        r == digit_char(d as nat),
{
    if d == 0 {
        '0'
    } else if d == 1 {
        '1'
    } else if d == 2 {
        '2'
    } else if d == 3 {
        '3'
    } else if d == 4 {
        '4'
    } else if d == 5 {
        '5'
    } else if d == 6 {
        '6'
    } else if d == 7 {
        '7'
    } else if d == 8 {
        '8'
    } else {
        '9'
    }
}

/// Append the decimal rendering of `n` to `out`.
fn push_dec_digits(n: u64, out: &mut Vec<char>)
    ensures
        final(out)@ == old(out)@ + dec_digits(n as nat),
    decreases n,
{
    if n >= 10 {
        push_dec_digits(n / 10, out);
    }
    out.push(digit_char_exec(n % 10));
    proof {
        if n < 10 {
            assert(old(out)@ + dec_digits(n as nat) =~= old(out)@.push(digit_char(n as nat)));
        } else {
            assert(old(out)@ + dec_digits(n as nat) =~= (old(out)@ + dec_digits(
                n as nat / 10,
            )).push(digit_char(n as nat % 10)));
        }
    }
}

/// The decimal rendering of `n` as a character vector.
pub fn u64_to_chars(n: u64) -> (r: Vec<char>)
    ensures
        r@ == dec_digits(n as nat),
{
    let mut out: Vec<char> = Vec::new();
    push_dec_digits(n, &mut out);
    proof {
        assert(out@ =~= dec_digits(n as nat));
    }
    out
}

} // verus!
