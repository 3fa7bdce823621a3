//! Character-vector utilities: conversion from `&str`, equality, substring
//! search, inclusive splitting and whitespace trimming.
//!
//! All executable functions work on `Vec<char>`, whose view is the same
//! `Seq<char>` as the view of the `&str` they came from, so contracts over
//! strings and over character vectors compose directly.

use vstd::prelude::*;
use vstd::seq_lib::lemma_flatten_concat;
use vstd::slice::{slice_subrange, slice_to_vec};
use vstd::string::StrSliceExecFns;

verus! {

/// The characters of `s` as a vector, in order.
pub fn to_chars(s: &str) -> (r: Vec<char>)
    ensures
        r@ == s@,
{
    let len = s.unicode_len();
    let mut out: Vec<char> = Vec::new();
    let mut i: usize = 0;
    while i < len
        invariant
            i <= len,
            len == s@.len(),
            out@ == s@.take(i as int),
        decreases len - i,
    {
        out.push(s.get_char(i));
        i = i + 1;
        proof {
            assert(out@ =~= s@.take(i as int));
        }
    }
    proof {
        assert(s@.take(len as int) =~= s@);
    }
    out
}

/// Build a `String` holding exactly the characters of `v`.
///
/// Relies on `String`'s `FromIterator<char>` implementation: collecting
/// characters yields the string of exactly those characters in order.
#[verifier::external_body]
pub(crate) fn string_from_chars(v: Vec<char>) -> (r: String)
    ensures
        r@ == v@,
{
    String::from_iter(v)
}

/// `a` and `b` hold the same characters.
pub fn chars_eq(a: &Vec<char>, b: &Vec<char>) -> (r: bool)
    ensures
        r == (a@ == b@),
{
    if a.len() != b.len() {
        return false;
    }
    let mut i: usize = 0;
    while i < a.len()
        invariant
            i <= a@.len(),
            a@.len() == b@.len(),
            forall|j: int| 0 <= j < i ==> a@[j] == b@[j],
        decreases a@.len() - i,
    {
        if a[i] != b[i] {
            return false;
        }
        i = i + 1;
    }
    proof {
        assert(a@ =~= b@);
    }
    true
}

/// The pattern `d` occurs in `s` at position `i`.
pub open spec fn match_at(s: Seq<char>, d: Seq<char>, i: int) -> bool {
    &&& 0 <= i
    &&& i + d.len() <= s.len()
    &&& s.subrange(i, i + d.len() as int) == d
}

/// The position of the first occurrence of `d` in `s`, if any.
pub open spec fn spec_find(s: Seq<char>, d: Seq<char>) -> Option<int>
    decreases s.len(), when d.len() > 0
{
    if s.len() < d.len() {
        None
    } else if s.take(d.len() as int) == d {
        Some(0)
    } else {
        match spec_find(s.drop_first(), d) {
            None => None,
            Some(i) => Some(i + 1),
        }
    }
}

/// Occurrences of `d` in the suffix `s.skip(from)` are exactly the
/// occurrences of `d` in `s` at or after `from`, shifted by `from`.
pub proof fn lemma_match_shift(s: Seq<char>, d: Seq<char>, from: int, k: int)
    requires
        0 <= from <= s.len(),
    ensures
        match_at(s.skip(from), d, k) <==> (k >= 0 && match_at(s, d, from + k)),
{
    if 0 <= k && k + d.len() <= s.len() - from {
        assert(s.skip(from).subrange(k, k + d.len() as int) =~= s.subrange(
            from + k,
            from + k + d.len() as int,
        ));
    }
}

/// `spec_find` returns the first occurrence: a match at the returned
/// position, no match before it, and `None` exactly when `d` occurs
/// nowhere in `s`.
pub proof fn lemma_find_first(s: Seq<char>, d: Seq<char>)
    requires
        d.len() > 0,
    ensures
        spec_find(s, d) matches Some(i) ==> match_at(s, d, i) && (forall|j: int|
            0 <= j < i ==> !match_at(s, d, j)),
        spec_find(s, d) is None ==> (forall|j: int| !match_at(s, d, j)),
    decreases s.len(),
{
    if s.len() < d.len() {
        assert(forall|j: int| !match_at(s, d, j));
    } else if s.take(d.len() as int) == d {
        assert(s.subrange(0, d.len() as int) == s.take(d.len() as int));
        assert(match_at(s, d, 0));
    } else {
        let s1 = s.drop_first();
        assert(s1 =~= s.skip(1));
        lemma_find_first(s1, d);
        assert forall|k: int| match_at(s1, d, k) <==> (k >= 0 && match_at(s, d, 1 + k)) by {
            lemma_match_shift(s, d, 1, k);
        }
        assert(!match_at(s, d, 0)) by {
            if match_at(s, d, 0) {
                assert(s.subrange(0, d.len() as int) == s.take(d.len() as int));
            }
        }
        match spec_find(s1, d) {
            None => {
                assert forall|j: int| !match_at(s, d, j) by {
                    if j >= 1 {
                        assert(!match_at(s1, d, j - 1));
                    }
                }
            },
            Some(i1) => {
                assert(match_at(s, d, i1 + 1));
                assert forall|j: int| 0 <= j < i1 + 1 implies !match_at(s, d, j) by {
                    if j >= 1 {
                        assert(!match_at(s1, d, j - 1));
                    }
                }
            },
        }
    }
}

/// If `d` occurs at `i` and nowhere before, then `i` is what `spec_find`
/// returns.
pub proof fn lemma_find_at(s: Seq<char>, d: Seq<char>, i: int)
    requires
        d.len() > 0,
        match_at(s, d, i),
        forall|j: int| 0 <= j < i ==> !match_at(s, d, j),
    ensures
        spec_find(s, d) == Some(i),
{
    lemma_find_first(s, d);
    match spec_find(s, d) {
        None => {
            assert(false);
        },
        Some(k) => {
            if k < i {
                assert(match_at(s, d, k));
                assert(false);
            } else if i < k {
                assert(!match_at(s, d, i));
                assert(false);
            }
        },
    }
}

/// If `d` occurs nowhere in `s`, `spec_find` returns `None`.
pub proof fn lemma_find_none(s: Seq<char>, d: Seq<char>)
    requires
        d.len() > 0,
        forall|j: int| !match_at(s, d, j),
    ensures
        spec_find(s, d) is None,
{
    lemma_find_first(s, d);
    match spec_find(s, d) {
        None => {
        },
        Some(k) => {
            assert(match_at(s, d, k));
            assert(false);
        },
    }
}

/// Whether `d` occurs in `s` at position `i`, tested by characters.
pub fn is_match_at(s: &Vec<char>, d: &Vec<char>, i: usize) -> (r: bool)
    requires
        i <= s@.len(),
    ensures
        r == match_at(s@, d@, i as int),
{
    if s.len() - i < d.len() {
        return false;
    }
    let mut j: usize = 0;
    while j < d.len()
        invariant
            j <= d@.len(),
            i + d@.len() <= s@.len(),
            s@.len() <= usize::MAX,
            forall|t: int| 0 <= t < j ==> s@[i + t] == d@[t],
        decreases d@.len() - j,
    {
        if s[i + j] != d[j] {
            assert(s@.subrange(i as int, i + d@.len() as int)[j as int] != d@[j as int]);
            return false;
        }
        j = j + 1;
    }
    proof {
        assert(s@.subrange(i as int, i + d@.len() as int) =~= d@);
    }
    true
}

/// The first occurrence of `d` in `s` at or after position `from`, as an
/// absolute position, related to `spec_find` on the corresponding suffix.
pub fn find_from(s: &Vec<char>, d: &Vec<char>, from: usize) -> (r: Option<usize>)
    requires
        d@.len() > 0,
        from <= s@.len(),
    ensures
        match r {
            Some(i) => from <= i && i + d@.len() <= s@.len() && spec_find(s@.skip(from as int), d@)
                == Some(i - from),
            None => spec_find(s@.skip(from as int), d@) is None,
        },
{
    let mut i: usize = from;
    while i <= s.len() && s.len() - i >= d.len()
        invariant
            from <= i <= s@.len() + 1,
            d@.len() > 0,
            from <= s@.len(),
            forall|j: int| from <= j < i ==> !match_at(s@, d@, j),
        decreases s@.len() - i,
    {
        if is_match_at(s, d, i) {
            proof {
                lemma_match_shift(s@, d@, from as int, i - from);
                assert forall|j: int| 0 <= j < i - from implies !match_at(
                    s@.skip(from as int),
                    d@,
                    j,
                ) by {
                    lemma_match_shift(s@, d@, from as int, j);
                }
                lemma_find_at(s@.skip(from as int), d@, i - from);
            }
            return Some(i);
        }
        i = i + 1;
    }
    proof {
        assert forall|j: int| !match_at(s@.skip(from as int), d@, j) by {
            lemma_match_shift(s@, d@, from as int, j);
            if j >= 0 && match_at(s@, d@, from + j) {
                assert(from + j + d@.len() <= s@.len());
                assert(from <= from + j < i);
                assert(false);
            }
        }
        lemma_find_none(s@.skip(from as int), d@);
    }
    None
}

/// The inclusive split of `s` on delimiter `d`: consecutive segments, each
/// ending with its delimiter occurrence, the last possibly without one;
/// the empty text splits into no segments.
pub open spec fn spec_split(s: Seq<char>, d: Seq<char>) -> Seq<Seq<char>>
    decreases s.len(), when d.len() > 0 via spec_split_decreases
{
    if s.len() == 0 {
        Seq::empty()
    } else {
        match spec_find(s, d) {
            None => seq![s],
            Some(i) => seq![s.take(i + d.len() as int)] + spec_split(
                s.skip(i + d.len() as int),
                d,
            ),
        }
    }
}

#[via_fn]
proof fn spec_split_decreases(s: Seq<char>, d: Seq<char>) {
    if d.len() > 0 && s.len() > 0 {
        lemma_find_first(s, d);
    }
}

/// Concatenating all segments of the inclusive split reproduces the text
/// exactly.
pub proof fn lemma_split_concat(s: Seq<char>, d: Seq<char>)
    requires
        d.len() > 0,
    ensures
        spec_split(s, d).flatten() == s,
    decreases s.len(),
{
    if s.len() == 0 {
        assert(spec_split(s, d).flatten() =~= s);
    } else {
        match spec_find(s, d) {
            None => {
                spec_split(s, d).lemma_flatten_one_element();
                assert(spec_split(s, d).flatten() =~= s);
            },
            Some(i) => {
                lemma_find_first(s, d);
                let cut = i + d.len() as int;
                let head = s.take(cut);
                let tail = s.skip(cut);
                lemma_split_concat(tail, d);
                lemma_flatten_concat(seq![head], spec_split(tail, d));
                seq![head].lemma_flatten_one_element();
                assert(spec_split(s, d).flatten() == head + tail);
                assert(head + tail =~= s);
            },
        }
    }
}

/// The characters of `s` from `a` (inclusive) to `b` (exclusive).
pub fn copy_range(s: &Vec<char>, a: usize, b: usize) -> (r: Vec<char>)
    requires
        a <= b <= s@.len(),
    ensures
        r@ == s@.subrange(a as int, b as int),
{
    slice_to_vec(slice_subrange(s.as_slice(), a, b))
}

/// Split `s` into inclusive segments on the delimiter `d`.
pub fn split_inclusive_chars(s: &Vec<char>, d: &Vec<char>) -> (r: Vec<Vec<char>>)
    requires
        d@.len() > 0,
    ensures
        r.deep_view() == spec_split(s@, d@),
{
    let mut out: Vec<Vec<char>> = Vec::new();
    let mut pos: usize = 0;
    proof {
        assert(out.deep_view() =~~= Seq::<Seq<char>>::empty());
        assert(s@.skip(0) =~= s@);
        assert(Seq::<Seq<char>>::empty() + spec_split(s@, d@) =~= spec_split(s@, d@));
    }
    while pos < s.len()
        invariant
            pos <= s@.len(),
            d@.len() > 0,
            spec_split(s@, d@) == out.deep_view() + spec_split(s@.skip(pos as int), d@),
        decreases s@.len() - pos,
    {
        let ghost rest = s@.skip(pos as int);
        let ghost prev = out.deep_view();
        match find_from(s, d, pos) {
            None => {
                let seg = copy_range(s, pos, s.len());
                proof {
                    assert(seg@ =~= rest);
                    assert(spec_split(rest, d@) == seq![rest]);
                }
                out.push(seg);
                proof {
                    assert(out.deep_view() =~~= prev + seq![rest]);
                    assert(s@.skip(s@.len() as int) =~= Seq::<char>::empty());
                    assert(prev + seq![rest] + spec_split(
                        s@.skip(s@.len() as int),
                        d@,
                    ) =~= prev + spec_split(rest, d@));
                }
                pos = s.len();
            },
            Some(i) => {
                let end = i + d.len();
                let seg = copy_range(s, pos, end);
                proof {
                    lemma_find_first(rest, d@);
                    assert(spec_find(rest, d@) == Some(i - pos));
                    assert(spec_split(rest, d@) == seq![rest.take(i - pos + d@.len() as int)]
                        + spec_split(rest.skip(i - pos + d@.len() as int), d@));
                    assert(seg@ =~= rest.take(i - pos + d@.len() as int));
                    assert(rest.skip(i - pos + d@.len() as int) =~= s@.skip(end as int));
                }
                out.push(seg);
                proof {
                    assert(out.deep_view() =~~= prev + seq![seg@]);
                    assert(prev + seq![seg@] + spec_split(s@.skip(end as int), d@) =~= prev
                        + spec_split(rest, d@));
                }
                pos = end;
            },
        }
    }
    proof {
        assert(s@.skip(pos as int) =~= Seq::<char>::empty());
        assert(out.deep_view() + spec_split(s@.skip(pos as int), d@) =~= out.deep_view());
    }
    out
}

/// Append all characters of `src` to `out`.
pub fn push_all(out: &mut Vec<char>, src: &Vec<char>)
    ensures
        final(out)@ == old(out)@ + src@,
{
    let mut i: usize = 0;
    proof {
        assert(out@ =~= old(out)@ + src@.take(0));
    }
    while i < src.len()
        invariant
            i <= src@.len(),
            out@ == old(out)@ + src@.take(i as int),
        decreases src@.len() - i,
    {
        out.push(src[i]);
        i = i + 1;
        proof {
            assert(out@ =~= old(out)@ + src@.take(i as int));
        }
    }
    proof {
        assert(src@.take(src@.len() as int) =~= src@);
    }
}

/// `c` is a whitespace character: the Unicode `White_Space` set that
/// `char::is_whitespace` documents.
pub open spec fn is_space(c: char) -> bool {
    ||| c == ' '
    ||| c == '\t'
    ||| c == '\n'
    ||| c == '\u{b}'
    ||| c == '\u{c}'
    ||| c == '\r'
    ||| c == '\u{85}'
    ||| c == '\u{a0}'
    ||| c == '\u{1680}'
    ||| ('\u{2000}' <= c && c <= '\u{200a}')
    ||| c == '\u{2028}'
    ||| c == '\u{2029}'
    ||| c == '\u{202f}'
    ||| c == '\u{205f}'
    ||| c == '\u{3000}'
}

/// Whitespace test matching `is_space`.
pub fn is_space_exec(c: char) -> (r: bool)
    ensures
        r == is_space(c),
{
    c == ' ' || c == '\t' || c == '\n' || c == '\u{b}' || c == '\u{c}' || c == '\r' || c
        == '\u{85}' || c == '\u{a0}' || c == '\u{1680}' || ('\u{2000}' <= c && c <= '\u{200a}')
        || c == '\u{2028}' || c == '\u{2029}' || c == '\u{202f}' || c == '\u{205f}' || c
        == '\u{3000}'
}

/// `s` without its leading whitespace.
pub open spec fn trim_start_spec(s: Seq<char>) -> Seq<char>
    decreases s.len(),
{
    if s.len() > 0 && is_space(s[0]) {
        trim_start_spec(s.drop_first())
    } else {
        s
    }
}

/// `s` without its trailing whitespace.
pub open spec fn trim_end_spec(s: Seq<char>) -> Seq<char>
    decreases s.len(),
{
    if s.len() > 0 && is_space(s.last()) {
        trim_end_spec(s.drop_last())
    } else {
        s
    }
}

/// `s` without leading and trailing whitespace, as `str::trim` documents.
pub open spec fn trim_spec(s: Seq<char>) -> Seq<char> {
    trim_end_spec(trim_start_spec(s))
}

/// The characters of `s` with leading and trailing whitespace removed.
pub fn trim_chars(s: &Vec<char>) -> (r: Vec<char>)
    ensures
        r@ == trim_spec(s@),
{
    let mut a: usize = 0;
    proof {
        assert(s@.skip(0) =~= s@);
    }
    while a < s.len() && is_space_exec(s[a])
        invariant
            a <= s@.len(),
            trim_start_spec(s@) == trim_start_spec(s@.skip(a as int)),
        decreases s@.len() - a,
    {
        proof {
            assert(s@.skip(a as int).drop_first() =~= s@.skip(a + 1));
        }
        a = a + 1;
    }
    proof {
        assert(trim_start_spec(s@.skip(a as int)) == s@.skip(a as int));
        assert(s@.skip(a as int) =~= s@.subrange(a as int, s@.len() as int));
    }
    let mut b: usize = s.len();
    while b > a && is_space_exec(s[b - 1])
        invariant
            a <= b <= s@.len(),
            trim_end_spec(s@.subrange(a as int, s@.len() as int)) == trim_end_spec(
                s@.subrange(a as int, b as int),
            ),
        decreases b,
    {
        proof {
            assert(s@.subrange(a as int, b as int).last() == s@[b - 1]);
            assert(s@.subrange(a as int, b as int).drop_last() =~= s@.subrange(
                a as int,
                b - 1,
            ));
        }
        b = b - 1;
    }
    proof {
        assert(trim_end_spec(s@.subrange(a as int, b as int)) == s@.subrange(a as int, b as int));
    }
    copy_range(s, a, b)
}

} // verus!
