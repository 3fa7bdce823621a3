//! The per-line processor: apply the optional skip pattern, split the
//! remainder into delimiter-inclusive fields, and wrap each bound field
//! in its color.

use vstd::prelude::*;
use vstd::string::StringExecFns;
use crate::binding::FieldColor;
use crate::color::{ansi_of, make_ansi, Color};
use crate::errors::ParseError;
use crate::size::{classify_code, classify_size, size_of_text};
use crate::text::{
    copy_range, find_from, push_all, spec_find, spec_split, split_inclusive_chars,
    string_from_chars, to_chars, trim_spec,
};

verus! {

/// The configuration of a run: the field-color bindings (first match by
/// order wins), the field delimiter, the optional skip pattern, and the
/// two byte-size thresholds.  Built once at startup and read-only for
/// the whole run.
#[derive(Debug)]
pub struct Options {
    /// The field-color bindings, in order; duplicates by index are
    /// allowed and the first match wins.
    pub fields: Vec<FieldColor>,
    /// The field delimiter; must be non-empty.
    pub delimeter: String,
    /// If set, text up to and including this pattern's first occurrence
    /// passes through unmodified before fields are matched.
    pub skip: Option<String>,
    /// Byte sizes strictly above this (and not above the red threshold)
    /// are yellow.
    pub yellow_size: u64,
    /// Byte sizes strictly above this are red.
    pub red_size: u64,
}

impl Options {
    /// The configuration is well-formed: the delimiter is non-empty.
    pub open spec fn wf(&self) -> bool {
        self.delimeter@.len() > 0
    }
}

impl Default for Options {
    /// The default configuration: no bindings, a single-space delimiter,
    /// no skip pattern, and the 20 MB yellow and 100 MB red thresholds.
    fn default() -> (r: Options)
        ensures
            r.wf(),
            r.fields@.len() == 0,
            r.delimeter@ == " "@,
            r.skip is None,
            r.yellow_size == 20_000_000u64,
            r.red_size == 100_000_000u64,
    {
        proof {
            reveal_strlit(" ");
        }
        Options {
            fields: Vec::new(),
            delimeter: String::from_str(" "),
            skip: None,
            yellow_size: 20_000_000,
            red_size: 100_000_000,
        }
    }
}

/// The color of the first binding whose field index equals `pos`, if
/// any.  Negative indices never match any position.
pub open spec fn binding_for(bs: Seq<FieldColor>, pos: int) -> Option<Color>
    decreases bs.len(),
{
    if bs.len() == 0 {
        None
    } else if bs[0].field >= 0 && bs[0].field == pos {
        Some(bs[0].color)
    } else {
        binding_for(bs.drop_first(), pos)
    }
}

/// The default-color sequence written after each colored field.
pub open spec fn reset_code() -> Seq<char> {
    ansi_of(seq!['9'])
}

/// The text a single field renders to: unchanged without a binding,
/// wrapped in the binding's sequence and the default reset otherwise,
/// with a size-conditional binding resolved from the trimmed field
/// text (`None` when that text denotes no size).
pub open spec fn render_field(seg: Seq<char>, c: Option<Color>, red: u64, yellow: u64) -> Option<
    Seq<char>,
> {
    match c {
        None => Some(seg),
        Some(Color::Ansi(a)) => Some(a@ + seg + reset_code()),
        Some(Color::Size) => match size_of_text(trim_spec(seg)) {
            None => None,
            Some(n) => Some(classify_code(n, red, yellow) + seg + reset_code()),
        },
    }
}

/// The concatenated rendering of the fields of `segs`, the first one
/// standing at position `pos`; `None` as soon as one field fails.
pub open spec fn render_fields(
    segs: Seq<Seq<char>>,
    bs: Seq<FieldColor>,
    pos: int,
    red: u64,
    yellow: u64,
) -> Option<Seq<char>>
    decreases segs.len(),
{
    if segs.len() == 0 {
        Some(Seq::empty())
    } else {
        match render_field(segs[0], binding_for(bs, pos), red, yellow) {
            None => None,
            Some(h) => match render_fields(segs.drop_first(), bs, pos + 1, red, yellow) {
                None => None,
                Some(t) => Some(h + t),
            },
        }
    }
}

/// The skip phase: the prefix passed through unmodified (up to and
/// including the pattern's first occurrence) and the remainder that the
/// field phases see; `None` when the pattern does not occur.
pub open spec fn spec_skip_split(l: Seq<char>, skip: Option<String>) -> Option<
    (Seq<char>, Seq<char>),
> {
    match skip {
        None => Some((Seq::empty(), l)),
        Some(p) => {
            if p@.len() == 0 {
                Some((Seq::empty(), l))
            } else {
                match spec_find(l, p@) {
                    None => None,
                    Some(i) => Some(
                        (l.take(i + p@.len() as int), l.skip(i + p@.len() as int)),
                    ),
                }
            }
        },
    }
}

/// Rendering decomposes at any cut: the whole line renders exactly when
/// both the first `k` fields and the rest render, to the concatenation.
pub proof fn lemma_render_fields_split(
    segs: Seq<Seq<char>>,
    bs: Seq<FieldColor>,
    pos: int,
    red: u64,
    yellow: u64,
    k: int,
)
    requires
        0 <= k <= segs.len(),
    ensures
        render_fields(segs, bs, pos, red, yellow) == (match render_fields(
            segs.take(k),
            bs,
            pos,
            red,
            yellow,
        ) {
            None => None::<Seq<char>>,
            Some(b) => match render_fields(segs.skip(k), bs, pos + k, red, yellow) {
                None => None::<Seq<char>>,
                Some(t) => Some(b + t),
            },
        }),
    decreases k,
{
    if k == 0 {
        assert(segs.take(0) =~= Seq::<Seq<char>>::empty());
        assert(segs.skip(0) =~= segs);
        match render_fields(segs, bs, pos, red, yellow) {
            None => {},
            Some(t) => {
                assert(Seq::<char>::empty() + t =~= t);
            },
        }
    } else {
        let rest = segs.drop_first();
        lemma_render_fields_split(rest, bs, pos + 1, red, yellow, k - 1);
        assert(segs.take(k)[0] == segs[0]);
        assert(segs.take(k).drop_first() =~= rest.take(k - 1));
        assert(segs.skip(k) =~= rest.skip(k - 1));
        match render_field(segs[0], binding_for(bs, pos), red, yellow) {
            None => {},
            Some(h) => {
                match render_fields(rest.take(k - 1), bs, pos + 1, red, yellow) {
                    None => {},
                    Some(b1) => {
                        match render_fields(rest.skip(k - 1), bs, pos + k, red, yellow) {
                            None => {},
                            Some(t) => {
                                assert(h + (b1 + t) =~= (h + b1) + t);
                            },
                        }
                    },
                }
            },
        }
    }
}

/// A single field renders on its own: the rendering of a one-field
/// sequence is the rendering of that field.
proof fn lemma_render_fields_one(
    x: Seq<char>,
    bs: Seq<FieldColor>,
    pos: int,
    red: u64,
    yellow: u64,
)
    ensures
        render_fields(seq![x], bs, pos, red, yellow) == render_field(
            x,
            binding_for(bs, pos),
            red,
            yellow,
        ),
{
    assert(seq![x].drop_first() =~= Seq::<Seq<char>>::empty());
    assert(seq![x][0] == x);
    assert(render_fields(Seq::<Seq<char>>::empty(), bs, pos + 1, red, yellow) == Some(
        Seq::<char>::empty(),
    ));
    match render_field(x, binding_for(bs, pos), red, yellow) {
        None => {},
        Some(h) => {
            assert(h + Seq::<char>::empty() =~= h);
        },
    }
}

/// Extending a rendered prefix by one field appends that field's
/// rendering.
pub proof fn lemma_render_fields_step(
    segs: Seq<Seq<char>>,
    bs: Seq<FieldColor>,
    red: u64,
    yellow: u64,
    k: int,
)
    requires
        0 <= k < segs.len(),
    ensures
        render_fields(segs.take(k + 1), bs, 0, red, yellow) == (match (render_fields(
            segs.take(k),
            bs,
            0,
            red,
            yellow,
        ), render_field(segs[k], binding_for(bs, k), red, yellow)) {
            (Some(b), Some(h)) => Some(b + h),
            _ => None::<Seq<char>>,
        }),
{
    lemma_render_fields_split(segs.take(k + 1), bs, 0, red, yellow, k);
    assert(segs.take(k + 1).take(k) =~= segs.take(k));
    assert(segs.take(k + 1).skip(k) =~= seq![segs[k]]);
    lemma_render_fields_one(segs[k], bs, k, red, yellow);
}

/// Fields without a matching binding render unchanged: a sequence of
/// fields none of whose positions is bound renders to exactly its own
/// concatenation.
pub proof fn lemma_render_unmatched(
    segs: Seq<Seq<char>>,
    bs: Seq<FieldColor>,
    pos: int,
    red: u64,
    yellow: u64,
)
    requires
        forall|i: int| pos <= i < pos + segs.len() ==> binding_for(bs, i) is None,
    ensures
        render_fields(segs, bs, pos, red, yellow) == Some(segs.flatten()),
    decreases segs.len(),
{
    if segs.len() == 0 {
        assert(segs.flatten() =~= Seq::<char>::empty());
    } else {
        assert(binding_for(bs, pos) is None);
        lemma_render_unmatched(segs.drop_first(), bs, pos + 1, red, yellow);
        assert(segs.flatten() == segs[0] + segs.drop_first().flatten());
    }
}

/// Round trip: when no binding's field index matches any split
/// position, the rendered fields concatenate back to the split text
/// itself, so (with no skip pattern) the output equals the input.
pub proof fn lemma_round_trip(
    l: Seq<char>,
    bs: Seq<FieldColor>,
    d: Seq<char>,
    red: u64,
    yellow: u64,
)
    requires
        d.len() > 0,
        forall|i: int|
            0 <= i < spec_split(l, d).len() ==> binding_for(bs, i) is None,
    ensures
        render_fields(spec_split(l, d), bs, 0, red, yellow) == Some(l),
{
    lemma_render_unmatched(spec_split(l, d), bs, 0, red, yellow);
    crate::text::lemma_split_concat(l, d);
}

/// A binding set whose field indices are all negative matches no
/// position: such bindings are accepted but never color any field.
pub proof fn lemma_negative_never_matches(bs: Seq<FieldColor>, pos: int)
    requires
        forall|j: int| 0 <= j < bs.len() ==> bs[j].field < 0,
    ensures
        binding_for(bs, pos) is None,
    decreases bs.len(),
{
    if bs.len() > 0 {
        assert(bs[0].field < 0);
        assert forall|j: int| 0 <= j < bs.drop_first().len() implies bs.drop_first()[j].field
            < 0 by {
            assert(bs.drop_first()[j] == bs[j + 1]);
        }
        lemma_negative_never_matches(bs.drop_first(), pos);
    }
}

/// The offset in the split text at which segment `k` starts: the total
/// length of the segments before it.
pub open spec fn seg_offset(segs: Seq<Seq<char>>, k: int) -> int {
    segs.take(k).flatten().len() as int
}

/// Each split segment is the exact slice of the split text at its
/// offset: field texts are byte-identical to the input they came from.
pub proof fn lemma_field_is_slice(l: Seq<char>, d: Seq<char>, k: int)
    requires
        d.len() > 0,
        0 <= k < spec_split(l, d).len(),
    ensures
        ({
            let segs = spec_split(l, d);
            let off = seg_offset(segs, k);
            &&& 0 <= off
            &&& off + segs[k].len() <= l.len()
            &&& segs[k] == l.subrange(off, off + segs[k].len() as int)
        }),
{
    let segs = spec_split(l, d);
    let off = seg_offset(segs, k);
    crate::text::lemma_split_concat(l, d);
    assert(segs =~= segs.take(k) + seq![segs[k]] + segs.skip(k + 1));
    vstd::seq_lib::lemma_flatten_concat(segs.take(k) + seq![segs[k]], segs.skip(k + 1));
    vstd::seq_lib::lemma_flatten_concat(segs.take(k), seq![segs[k]]);
    seq![segs[k]].lemma_flatten_one_element();
    assert(l == segs.take(k).flatten() + segs[k] + segs.skip(k + 1).flatten());
    assert(l.subrange(off, off + segs[k].len() as int) =~= segs[k]);
}

/// Coloring wrap invariant: a field matched by an `Ansi` binding
/// renders as the escape sequence, then the original field text, then
/// the default reset, and that field text is byte-identical to the
/// corresponding slice of the split text.
pub proof fn lemma_color_wrap(
    l: Seq<char>,
    d: Seq<char>,
    bs: Seq<FieldColor>,
    a: String,
    red: u64,
    yellow: u64,
    k: int,
)
    requires
        d.len() > 0,
        0 <= k < spec_split(l, d).len(),
        binding_for(bs, k) == Some(Color::Ansi(a)),
    ensures
        render_field(spec_split(l, d)[k], binding_for(bs, k), red, yellow) == Some(
            a@ + spec_split(l, d)[k] + reset_code(),
        ),
        spec_split(l, d)[k] == l.subrange(
            seg_offset(spec_split(l, d), k),
            seg_offset(spec_split(l, d), k) + spec_split(l, d)[k].len() as int,
        ),
{
    lemma_field_is_slice(l, d, k);
}

/// The index of the first binding that matches position `pos`, if any.
fn find_binding_idx(bs: &Vec<FieldColor>, pos: usize) -> (r: Option<usize>)
    ensures
        match r {
            Some(bi) => bi < bs@.len() && binding_for(bs@, pos as int) == Some(
                bs@[bi as int].color,
            ),
            None => binding_for(bs@, pos as int) is None,
        },
{
    let mut j: usize = 0;
    proof {
        assert(bs@.skip(0) =~= bs@);
    }
    while j < bs.len()
        invariant
            j <= bs@.len(),
            binding_for(bs@, pos as int) == binding_for(bs@.skip(j as int), pos as int),
        decreases bs@.len() - j,
    {
        if bs[j].field >= 0 && bs[j].field as u64 == pos as u64 {
            proof {
                assert(bs@.skip(j as int)[0] == bs@[j as int]);
            }
            return Some(j);
        }
        proof {
            assert(bs@.skip(j as int)[0] == bs@[j as int]);
            assert(bs@.skip(j as int).drop_first() =~= bs@.skip(j + 1));
        }
        j = j + 1;
    }
    proof {
        assert(bs@.skip(bs@.len() as int).len() == 0);
    }
    None
}

/// The skip phase on a line: the pass-through prefix and the remainder,
/// or `None` when the configured pattern does not occur in the line.
fn apply_skip(chars: Vec<char>, skip: &Option<String>) -> (r: Option<(Vec<char>, Vec<char>)>)
    ensures
        match spec_skip_split(chars@, *skip) {
            None => r is None,
            Some(parts) => r matches Some(pr) && pr.0@ == parts.0 && pr.1@ == parts.1,
        },
{
    match skip {
        None => Some((Vec::new(), chars)),
        Some(p) => {
            let pv = to_chars(p.as_str());
            if pv.len() == 0 {
                Some((Vec::new(), chars))
            } else {
                proof {
                    assert(chars@.skip(0) =~= chars@);
                }
                match find_from(&chars, &pv, 0) {
                    None => None,
                    Some(i) => {
                        let n = chars.len();
                        let cut = i + pv.len();
                        let pre = copy_range(&chars, 0, cut);
                        let rest = copy_range(&chars, cut, n);
                        proof {
                            assert(pre@ =~= chars@.take(cut as int));
                            assert(rest@ =~= chars@.skip(cut as int));
                        }
                        Some((pre, rest))
                    },
                }
            }
        },
    }
}

/// Process one line: write the skip prefix through unchanged, split the
/// remainder into delimiter-inclusive fields, and wrap each field whose
/// position has a binding in that binding's color (resolving size-
/// conditional bindings through the size classifier), leaving all other
/// fields untouched.
///
/// Fails with `SkipPatternNotFound` when the skip pattern does not
/// occur in the line, and with `IntParseError` when a size-bound field
/// does not denote a byte size.
pub fn process_line(line: &str, opts: &Options) -> (r: Result<String, ParseError>)
    requires
        opts.wf(),
    ensures
        ({
            let l = line@;
            match spec_skip_split(l, opts.skip) {
                None => r matches Err(ParseError::SkipPatternNotFound),
                Some(parts) => {
                    let segs = spec_split(parts.1, opts.delimeter@);
                    match render_fields(segs, opts.fields@, 0, opts.red_size, opts.yellow_size) {
                        None => r matches Err(ParseError::IntParseError),
                        Some(body) => r matches Ok(out) && out@ == parts.0 + body,
                    }
                },
            }
        }),
{
    let chars = to_chars(line);
    let pair = match apply_skip(chars, &opts.skip) {
        None => {
            return Err(ParseError::SkipPatternNotFound);
        },
        Some(pr) => pr,
    };
    let mut out = pair.0;
    let rest = pair.1;
    let ghost pre0 = out@;
    let ghost restv = rest@;
    let delim = to_chars(opts.delimeter.as_str());
    let segs = split_inclusive_chars(&rest, &delim);
    let ghost sview = spec_split(restv, opts.delimeter@);
    let mut reset9: Vec<char> = Vec::new();
    reset9.push('9');
    proof {
        assert(reset9@ =~= seq!['9']);
    }
    let reset_string = make_ansi(&reset9);
    let reset = to_chars(reset_string.as_str());
    let mut k: usize = 0;
    proof {
        assert(sview.take(0) =~= Seq::<Seq<char>>::empty());
        assert(pre0 + Seq::<char>::empty() =~= pre0);
    }
    while k < segs.len()
        invariant
            k <= segs@.len(),
            segs.deep_view() == sview,
            sview == spec_split(restv, opts.delimeter@),
            spec_skip_split(line@, opts.skip) == Some((pre0, restv)),
            reset@ == reset_code(),
            render_fields(sview.take(k as int), opts.fields@, 0, opts.red_size, opts.yellow_size)
                matches Some(b) && out@ == pre0 + b,
        decreases segs@.len() - k,
    {
        let ghost bsv = opts.fields@;
        let ghost red = opts.red_size;
        let ghost yellow = opts.yellow_size;
        let ghost bprev = render_fields(sview.take(k as int), bsv, 0, red, yellow)->Some_0;
        let seg = &segs[k];
        proof {
            assert(segs@[k as int].deep_view() =~= segs@[k as int]@);
            assert(seg@ == sview[k as int]);
        }
        let ghost segv = seg@;
        match find_binding_idx(&opts.fields, k) {
            None => {
                push_all(&mut out, seg);
                proof {
                    assert(render_field(segv, binding_for(bsv, k as int), red, yellow) == Some(
                        segv,
                    ));
                }
            },
            Some(bi) => {
                match &opts.fields[bi].color {
                    Color::Ansi(a) => {
                        let av = to_chars(a.as_str());
                        push_all(&mut out, &av);
                        push_all(&mut out, seg);
                        push_all(&mut out, &reset);
                        proof {
                            assert(render_field(segv, binding_for(bsv, k as int), red, yellow)
                                == Some(a@ + segv + reset_code()));
                            assert(out@ =~= pre0 + bprev + (a@ + segv + reset_code()));
                        }
                    },
                    Color::Size => {
                        let text = string_from_chars(copy_range(seg, 0, seg.len()));
                        proof {
                            assert(text@ =~= segv);
                            assert(binding_for(bsv, k as int) == Some(
                                opts.fields@[bi as int].color,
                            ));
                            assert(opts.fields@[bi as int].color is Size);
                        }
                        match classify_size(text.as_str(), opts.red_size, opts.yellow_size) {
                            Err(e) => {
                                proof {
                                    assert(render_field(
                                        segv,
                                        binding_for(bsv, k as int),
                                        red,
                                        yellow,
                                    ) is None);
                                    lemma_render_fields_split(sview, bsv, 0, red, yellow, k as int);
                                    assert(sview.skip(k as int)[0] == sview[k as int]);
                                    assert(render_fields(
                                        sview.skip(k as int),
                                        bsv,
                                        k as int,
                                        red,
                                        yellow,
                                    ) is None);
                                }
                                return Err(e);
                            },
                            Ok(c2) => {
                                match c2.render() {
                                    Ok(t) => {
                                        let av = to_chars(t.as_str());
                                        push_all(&mut out, &av);
                                        push_all(&mut out, seg);
                                        push_all(&mut out, &reset);
                                        proof {
                                            let n = size_of_text(trim_spec(segv))->Some_0;
                                            assert(render_field(
                                                segv,
                                                binding_for(bsv, k as int),
                                                red,
                                                yellow,
                                            ) == Some(classify_code(n, red, yellow) + segv
                                                + reset_code()));
                                            assert(out@ =~= pre0 + bprev + (classify_code(
                                                n,
                                                red,
                                                yellow,
                                            ) + segv + reset_code()));
                                        }
                                    },
                                    Err(e2) => {
                                        proof {
                                            assert(false);
                                        }
                                        return Err(e2);
                                    },
                                }
                            },
                        }
                    },
                }
            },
        }
        proof {
            lemma_render_fields_step(sview, bsv, red, yellow, k as int);
            assert(out@ =~= pre0 + (bprev + render_field(
                segv,
                binding_for(bsv, k as int),
                red,
                yellow,
            )->Some_0));
        }
        k = k + 1;
    }
    proof {
        assert(sview.take(segs@.len() as int) =~= sview);
    }
    Ok(string_from_chars(out))
}

} // verus!
