//! The line grammar, stated generatively, and the tokenizer round-trip
//! law: a line rendered from well-formed fields tokenizes back to
//! exactly those name/value pairs.

use vstd::prelude::*;
use crate::span::{SpecField, SpecSpan, fname, fval};
use crate::tok::{COLON, CR, NL, QUOTE, SPACE, FieldState, TokErr, spec_tokenize, tok_from};

verus! {

/// A field as the grammar describes it: a non-empty name, a value, and
/// whether the value is quote-delimited.
pub struct GField {
    pub name: Seq<u8>,
    pub value: Seq<u8>,
    pub quoted: bool,
}

/// A byte a name may hold: anything but colon, quote, space and the
/// line terminators.
pub open spec fn name_byte(b: u8) -> bool {
    b != COLON && b != QUOTE && b != SPACE && b != CR && b != NL
}

/// A byte a bare value may hold: the same set as a name.
pub open spec fn bare_byte(b: u8) -> bool {
    name_byte(b)
}

/// A byte a quoted value may hold: colon and space are allowed, only
/// the quote and the line terminators are not.
pub open spec fn quoted_byte(b: u8) -> bool {
    b != QUOTE && b != CR && b != NL
}

/// The grammar's demands on one field: `name := byte+`, and a value
/// that is either `bare := byte+` or a quoted `byte*`.
pub open spec fn wf_gfield(f: GField) -> bool {
    &&& f.name.len() > 0
    &&& (forall|i: int| 0 <= i < f.name.len() ==> name_byte(#[trigger] f.name[i]))
    &&& (if f.quoted {
        forall|i: int| 0 <= i < f.value.len() ==> quoted_byte(#[trigger] f.value[i])
    } else {
        f.value.len() > 0
            && (forall|i: int| 0 <= i < f.value.len() ==> bare_byte(#[trigger] f.value[i]))
    })
}

/// One field's text: `name ":" value`, the value quote-delimited where
/// the field is quoted.
pub open spec fn render_field(f: GField) -> Seq<u8> {
    f.name + seq![COLON] + (if f.quoted {
        seq![QUOTE] + f.value + seq![QUOTE]
    } else {
        f.value
    })
}

pub open spec fn flen(f: GField) -> int {
    render_field(f).len() as int
}

/// The fields' texts joined by single spaces.
pub open spec fn render_fields(fs: Seq<GField>) -> Seq<u8>
    decreases fs.len(),
{
    if fs.len() == 0 {
        Seq::empty()
    } else if fs.len() == 1 {
        render_field(fs[0])
    } else {
        render_field(fs[0]) + seq![SPACE] + render_fields(fs.drop_first())
    }
}

/// A full grammar line: space-separated fields, newline-terminated.
pub open spec fn render_line(fs: Seq<GField>) -> Seq<u8> {
    render_fields(fs) + seq![NL]
}

/// The spans the tokenizer gives a field whose text starts at `p`.
pub open spec fn out_field(p: int, f: GField) -> SpecField {
    SpecField {
        name: SpecSpan { start: p, len: f.name.len() as int },
        value: SpecSpan {
            start: p + f.name.len() + (if f.quoted { 2int } else { 1int }),
            len: f.value.len() as int,
        },
        quoted: f.quoted,
    }
}

/// The spans of a field list whose text starts at `p`.
pub open spec fn out_fields(p: int, fs: Seq<GField>) -> Seq<SpecField>
    decreases fs.len(),
{
    if fs.len() == 0 {
        Seq::empty()
    } else {
        seq![out_field(p, fs[0])] + out_fields(p + flen(fs[0]) + 1, fs.drop_first())
    }
}

/// Whether the bytes of `t` stand in `s` at position `p`.
pub open spec fn matches_at(s: Seq<u8>, p: int, t: Seq<u8>) -> bool {
    &&& 0 <= p
    &&& p + t.len() <= s.len()
    &&& forall|k: int| 0 <= k < t.len() ==> #[trigger] s[p + k] == t[k]
}

proof fn lemma_render_field_index(f: GField)
    ensures
        flen(f) == f.name.len() + 1 + (if f.quoted { f.value.len() + 2 } else { f.value.len() }),
        forall|k: int| 0 <= k < f.name.len() ==> #[trigger] render_field(f)[k] == f.name[k],
        render_field(f)[f.name.len() as int] == COLON,
        !f.quoted ==> forall|k: int| 0 <= k < f.value.len()
            ==> #[trigger] render_field(f)[f.name.len() + 1 + k] == f.value[k],
        f.quoted ==> render_field(f)[f.name.len() as int + 1] == QUOTE
            && (forall|k: int| 0 <= k < f.value.len()
                ==> #[trigger] render_field(f)[f.name.len() + 2 + k] == f.value[k])
            && render_field(f)[f.name.len() as int + 2 + f.value.len() as int] == QUOTE,
{
    let n = f.name.len() as int;
    let v = f.value.len() as int;
    let nc = f.name + seq![COLON];
    assert(nc[n] == COLON);
    assert forall|k: int| 0 <= k < f.name.len() implies #[trigger] render_field(f)[k]
        == f.name[k] by {
        assert(nc[k] == f.name[k]);
    }
    if f.quoted {
        let vp = seq![QUOTE] + f.value + seq![QUOTE];
        assert(vp[0] == QUOTE);
        assert(vp[v + 1] == QUOTE);
        assert forall|k: int| 0 <= k < f.value.len() implies #[trigger] render_field(f)[
            f.name.len() + 2 + k] == f.value[k] by {
            assert((seq![QUOTE] + f.value)[k + 1] == f.value[k]);
            assert(vp[k + 1] == f.value[k]);
            assert(render_field(f)[n + 2 + k] == vp[k + 1]);
        }
        assert(render_field(f)[n + 1] == vp[0]);
        assert(render_field(f)[n + 2 + v] == vp[v + 1]);
    } else {
        assert forall|k: int| 0 <= k < f.value.len() implies #[trigger] render_field(f)[
            f.name.len() + 1 + k] == f.value[k] by {
            assert(render_field(f)[n + 1 + k] == f.value[k]);
        }
    }
}

proof fn lemma_render_fields_split(fs: Seq<GField>)
    requires
        fs.len() >= 2,
    ensures
        render_fields(fs).len() == flen(fs[0]) + 1 + render_fields(fs.drop_first()).len(),
        forall|k: int| 0 <= k < flen(fs[0]) ==> #[trigger] render_fields(fs)[k]
            == render_field(fs[0])[k],
        render_fields(fs)[flen(fs[0])] == SPACE,
        forall|k: int| 0 <= k < render_fields(fs.drop_first()).len()
            ==> #[trigger] render_fields(fs)[flen(fs[0]) + 1 + k]
                == render_fields(fs.drop_first())[k],
{
    let a = render_field(fs[0]);
    let rest = render_fields(fs.drop_first());
    let ab = a + seq![SPACE];
    assert(render_fields(fs) == ab + rest);
    assert forall|k: int| 0 <= k < flen(fs[0]) implies #[trigger] render_fields(fs)[k]
        == a[k] by {
        assert((ab + rest)[k] == ab[k]);
        assert(ab[k] == a[k]);
    }
    assert(render_fields(fs)[flen(fs[0])] == ab[a.len() as int]);
    assert(ab[a.len() as int] == SPACE);
    assert forall|k: int| 0 <= k < rest.len() implies #[trigger] render_fields(fs)[
        flen(fs[0]) + 1 + k] == rest[k] by {
        assert((ab + rest)[ab.len() + k] == rest[k]);
    }
}

proof fn lemma_scan_name(
    s: Seq<u8>,
    i: int,
    j: int,
    seek: int,
    nm: SpecSpan,
    acc: Seq<SpecField>,
)
    requires
        0 <= seek <= i <= j <= s.len(),
        forall|k: int| i <= k < j ==> name_byte(#[trigger] s[k]),
    ensures
        tok_from(s, i, FieldState::ExpectMid, seek, nm, acc)
            == tok_from(s, j, FieldState::ExpectMid, seek, nm, acc),
    decreases j - i,
{
    if i < j {
        assert(name_byte(s[i]));
        lemma_scan_name(s, i + 1, j, seek, nm, acc);
    }
}

proof fn lemma_scan_bare(
    s: Seq<u8>,
    i: int,
    j: int,
    seek: int,
    nm: SpecSpan,
    acc: Seq<SpecField>,
)
    requires
        0 <= seek <= i <= j <= s.len(),
        forall|k: int| i <= k < j ==> bare_byte(#[trigger] s[k]),
    ensures
        tok_from(s, i, FieldState::ExpectEnd, seek, nm, acc)
            == tok_from(s, j, FieldState::ExpectEnd, seek, nm, acc),
    decreases j - i,
{
    if i < j {
        assert(bare_byte(s[i]));
        lemma_scan_bare(s, i + 1, j, seek, nm, acc);
    }
}

proof fn lemma_scan_quoted(
    s: Seq<u8>,
    i: int,
    j: int,
    seek: int,
    nm: SpecSpan,
    acc: Seq<SpecField>,
)
    requires
        0 <= seek <= i <= j <= s.len(),
        forall|k: int| i <= k < j ==> quoted_byte(#[trigger] s[k]),
    ensures
        tok_from(s, i, FieldState::ExpectBracket, seek, nm, acc)
            == tok_from(s, j, FieldState::ExpectBracket, seek, nm, acc),
    decreases j - i,
{
    if i < j {
        assert(quoted_byte(s[i]));
        lemma_scan_quoted(s, i + 1, j, seek, nm, acc);
    }
}

proof fn lemma_tok_fields(s: Seq<u8>, p: int, fs: Seq<GField>, nm: SpecSpan, acc: Seq<SpecField>)
    requires
        fs.len() >= 1,
        forall|x: int| 0 <= x < fs.len() ==> wf_gfield(#[trigger] fs[x]),
        matches_at(s, p, render_fields(fs)),
        p + render_fields(fs).len() + 1 == s.len(),
        s[s.len() - 1] == NL,
    ensures
        tok_from(s, p, FieldState::ExpectMid, p, nm, acc)
            == Ok::<Seq<SpecField>, TokErr>(acc + out_fields(p, fs)),
    decreases fs.len(), 1int,
{
    let f0 = fs[0];
    let nlen = f0.name.len() as int;
    let vlen = f0.value.len() as int;
    assert(wf_gfield(f0));
    lemma_render_field_index(f0);
    let rfs = render_fields(fs);
    // the bytes of f0's own text inside s
    if fs.len() >= 2 {
        lemma_render_fields_split(fs);
    }
    assert forall|k: int| 0 <= k < flen(f0) implies #[trigger] s[p + k]
        == render_field(f0)[k] by {
        assert(s[p + k] == rfs[k]);
        if fs.len() >= 2 {
            assert(rfs[k] == render_field(f0)[k]);
        }
    }
    assert forall|k: int| p <= k < p + flen(f0) implies #[trigger] s[k]
        == render_field(f0)[k - p] by {
        assert(s[p + (k - p)] == render_field(f0)[k - p]);
    }
    // scan the name
    assert forall|k: int| p <= k < p + nlen implies name_byte(#[trigger] s[k]) by {
        assert(render_field(f0)[k - p] == f0.name[k - p]);
    }
    lemma_scan_name(s, p, p + nlen, p, nm, acc);
    // the colon closes the name
    assert(s[p + nlen] == render_field(f0)[nlen]);
    assert(s[p + nlen] == COLON);
    let nm0 = SpecSpan { start: p, len: nlen };
    assert(tok_from(s, p + nlen, FieldState::ExpectMid, p, nm, acc)
        == tok_from(s, p + nlen + 1, FieldState::ExpectEnd, p + nlen + 1, nm0, acc));
    let of0 = out_field(p, f0);
    let q = p + flen(f0);
    // after f0's text: either the line ends or a space separates
    if !f0.quoted {
        let vstart = p + nlen + 1;
        assert forall|k: int| vstart <= k < vstart + vlen implies bare_byte(
            #[trigger] s[k]) by {
            assert(render_field(f0)[nlen + 1 + (k - vstart)] == f0.value[k - vstart]);
            assert(render_field(f0)[k - p] == f0.value[k - vstart]);
        }
        lemma_scan_bare(s, vstart, vstart + vlen, vstart, nm0, acc);
        assert(q == vstart + vlen);
        assert(vlen > 0);
        if fs.len() == 1 {
            assert(q == s.len() - 1);
            assert(s[q] == NL);
            assert(tok_from(s, q, FieldState::ExpectEnd, vstart, nm0, acc)
                == Ok::<Seq<SpecField>, TokErr>(acc.push(SpecField {
                    name: nm0,
                    value: SpecSpan { start: vstart, len: q - vstart },
                    quoted: false,
                })));
            assert(SpecField {
                name: nm0,
                value: SpecSpan { start: vstart, len: q - vstart },
                quoted: false,
            } == of0);
            assert(out_fields(p + flen(f0) + 1, fs.drop_first())
                =~= Seq::<SpecField>::empty());
            assert(out_fields(p, fs) =~= seq![of0]);
            assert(acc + out_fields(p, fs) =~= acc.push(of0));
        } else {
            assert(s[p + flen(f0)] == rfs[flen(f0)]);
            assert(s[q] == SPACE);
            assert(SpecField {
                name: nm0,
                value: SpecSpan { start: vstart, len: q - vstart },
                quoted: false,
            } == of0);
            assert(tok_from(s, q, FieldState::ExpectEnd, vstart, nm0, acc)
                == tok_from(s, q + 1, FieldState::ExpectStart, q + 1, nm0, acc.push(of0)));
            lemma_tok_tail(s, p, q + 1, fs, nm0, acc, of0);
        }
    } else {
        let bstart = p + nlen + 2;
        assert(s[p + nlen + 1] == render_field(f0)[nlen + 1]);
        assert(s[p + nlen + 1] == QUOTE);
        assert(tok_from(s, p + nlen + 1, FieldState::ExpectEnd, p + nlen + 1, nm0, acc)
            == tok_from(s, bstart, FieldState::ExpectBracket, bstart, nm0, acc));
        assert forall|k: int| bstart <= k < bstart + vlen implies quoted_byte(
            #[trigger] s[k]) by {
            assert(render_field(f0)[nlen + 2 + (k - bstart)] == f0.value[k - bstart]);
            assert(render_field(f0)[k - p] == f0.value[k - bstart]);
        }
        lemma_scan_quoted(s, bstart, bstart + vlen, bstart, nm0, acc);
        let c = bstart + vlen;
        assert(s[c] == render_field(f0)[nlen + 2 + vlen]);
        assert(s[c] == QUOTE);
        assert(SpecField {
            name: nm0,
            value: SpecSpan { start: bstart, len: c - bstart },
            quoted: true,
        } == of0);
        assert(tok_from(s, c, FieldState::ExpectBracket, bstart, nm0, acc)
            == tok_from(s, c + 1, FieldState::ExpectStart, c + 1, nm0, acc.push(of0)));
        assert(c + 1 == q);
        if fs.len() == 1 {
            assert(q == s.len() - 1);
            assert(s[q] == NL);
            assert(tok_from(s, q, FieldState::ExpectStart, q, nm0, acc.push(of0))
                == Ok::<Seq<SpecField>, TokErr>(acc.push(of0)));
            assert(out_fields(p + flen(f0) + 1, fs.drop_first())
                =~= Seq::<SpecField>::empty());
            assert(out_fields(p, fs) =~= seq![of0]);
            assert(acc + out_fields(p, fs) =~= acc.push(of0));
        } else {
            assert(s[p + flen(f0)] == rfs[flen(f0)]);
            assert(s[q] == SPACE);
            assert(tok_from(s, q, FieldState::ExpectStart, q, nm0, acc.push(of0))
                == tok_from(s, q + 1, FieldState::ExpectStart, q, nm0, acc.push(of0)));
            lemma_tok_tail(s, p, q + 1, fs, nm0, acc, of0);
        }
    }
}

/// From the skipping state right after field 0's separator space, the
/// rest of the line tokenizes to the remaining fields.
proof fn lemma_tok_tail(
    s: Seq<u8>,
    p: int,
    p2: int,
    fs: Seq<GField>,
    nm0: SpecSpan,
    acc: Seq<SpecField>,
    of0: SpecField,
)
    requires
        fs.len() >= 2,
        forall|x: int| 0 <= x < fs.len() ==> wf_gfield(#[trigger] fs[x]),
        matches_at(s, p, render_fields(fs)),
        p + render_fields(fs).len() + 1 == s.len(),
        s[s.len() - 1] == NL,
        p2 == p + flen(fs[0]) + 1,
        of0 == out_field(p, fs[0]),
    ensures
        forall|seek: int| 0 <= seek <= p2 ==> tok_from(s, p2, FieldState::ExpectStart, seek,
            nm0, acc.push(of0)) == Ok::<Seq<SpecField>, TokErr>(acc + out_fields(p, fs)),
    decreases fs.len(), 0int,
{
    let f0 = fs[0];
    let rest = fs.drop_first();
    let rrest = render_fields(rest);
    lemma_render_fields_split(fs);
    lemma_render_field_index(fs[1]);
    assert(rest.len() >= 1);
    assert(rest[0] == fs[1]);
    assert forall|x: int| 0 <= x < rest.len() implies wf_gfield(#[trigger] rest[x]) by {
        assert(rest[x] == fs[x + 1]);
    }
    // the tail fields' text stands at p2
    assert(matches_at(s, p2, rrest)) by {
        assert forall|k: int| 0 <= k < rrest.len() implies #[trigger] s[p2 + k]
            == rrest[k] by {
            assert(s[p + (flen(f0) + 1 + k)] == render_fields(fs)[flen(f0) + 1 + k]);
            assert(render_fields(fs)[flen(f0) + 1 + k] == rrest[k]);
        }
    }
    assert(p2 + rrest.len() + 1 == s.len());
    // the first byte of the next field's name leaves the skipping state
    assert(rrest[0] == render_field(rest[0])[0]);
    assert(render_field(rest[0])[0] == rest[0].name[0]);
    assert(s[p2 + 0] == rrest[0]);
    assert(s[p2] == rrest[0]);
    assert(name_byte(s[p2]));
    assert forall|seek: int| 0 <= seek <= p2 implies tok_from(s, p2, FieldState::ExpectStart,
        seek, nm0, acc.push(of0)) == Ok::<Seq<SpecField>, TokErr>(acc + out_fields(p, fs)) by {
        assert(tok_from(s, p2, FieldState::ExpectStart, seek, nm0, acc.push(of0))
            == tok_from(s, p2 + 1, FieldState::ExpectMid, p2, nm0, acc.push(of0)));
        lemma_tok_fields(s, p2, rest, nm0, acc.push(of0));
        assert(tok_from(s, p2, FieldState::ExpectMid, p2, nm0, acc.push(of0))
            == tok_from(s, p2 + 1, FieldState::ExpectMid, p2, nm0, acc.push(of0)));
        assert(acc.push(of0) + out_fields(p2, rest) =~= acc + out_fields(p, fs)) by {
            assert(out_fields(p, fs) == seq![of0] + out_fields(p2, rest));
        }
    }
}

/// The spans of a rendered field list select exactly the fields' own
/// names and values.
proof fn lemma_out_fields_content(s: Seq<u8>, p: int, fs: Seq<GField>)
    requires
        forall|x: int| 0 <= x < fs.len() ==> wf_gfield(#[trigger] fs[x]),
        matches_at(s, p, render_fields(fs)),
    ensures
        out_fields(p, fs).len() == fs.len(),
        forall|i: int| 0 <= i < fs.len() ==> {
            &&& fname(s, #[trigger] out_fields(p, fs)[i]) == fs[i].name
            &&& fval(s, out_fields(p, fs)[i]) == fs[i].value
            &&& out_fields(p, fs)[i].quoted == fs[i].quoted
        },
    decreases fs.len(),
{
    if fs.len() == 0 {
        return;
    }
    let f0 = fs[0];
    assert(wf_gfield(f0));
    lemma_render_field_index(f0);
    let rfs = render_fields(fs);
    if fs.len() >= 2 {
        lemma_render_fields_split(fs);
    }
    assert forall|k: int| 0 <= k < flen(f0) implies #[trigger] s[p + k]
        == render_field(f0)[k] by {
        assert(s[p + k] == rfs[k]);
        if fs.len() >= 2 {
            assert(rfs[k] == render_field(f0)[k]);
        }
    }
    let of0 = out_field(p, f0);
    assert(fname(s, of0) =~= f0.name) by {
        assert forall|k: int| 0 <= k < f0.name.len() implies fname(s, of0)[k]
            == f0.name[k] by {
            assert(fname(s, of0)[k] == s[p + k]);
            assert(s[p + k] == render_field(f0)[k]);
        }
    }
    let nlen = f0.name.len() as int;
    assert(fval(s, of0) =~= f0.value) by {
        assert forall|k: int| 0 <= k < f0.value.len() implies fval(s, of0)[k]
            == f0.value[k] by {
            if f0.quoted {
                assert(s[p + (nlen + 2 + k)] == render_field(f0)[nlen + 2 + k]);
                assert(fval(s, of0)[k] == s[of0.value.start + k]);
                assert(of0.value.start + k == p + (nlen + 2 + k));
            } else {
                assert(s[p + (nlen + 1 + k)] == render_field(f0)[nlen + 1 + k]);
                assert(fval(s, of0)[k] == s[of0.value.start + k]);
                assert(of0.value.start + k == p + (nlen + 1 + k));
            }
        }
    }
    if fs.len() == 1 {
        assert(out_fields(p + flen(f0) + 1, fs.drop_first()) =~= Seq::<SpecField>::empty());
        assert(out_fields(p, fs) =~= seq![of0]);
    } else {
        let rest = fs.drop_first();
        let p2 = p + flen(f0) + 1;
        assert forall|x: int| 0 <= x < rest.len() implies wf_gfield(#[trigger] rest[x]) by {
            assert(rest[x] == fs[x + 1]);
        }
        assert(matches_at(s, p2, render_fields(rest))) by {
            assert forall|k: int| 0 <= k < render_fields(rest).len() implies #[trigger] s[
                p2 + k] == render_fields(rest)[k] by {
                assert(s[p + (flen(f0) + 1 + k)] == rfs[flen(f0) + 1 + k]);
                assert(rfs[flen(f0) + 1 + k] == render_fields(rest)[k]);
            }
        }
        lemma_out_fields_content(s, p2, rest);
        assert forall|i: int| 0 <= i < fs.len() implies {
            &&& fname(s, #[trigger] out_fields(p, fs)[i]) == fs[i].name
            &&& fval(s, out_fields(p, fs)[i]) == fs[i].value
            &&& out_fields(p, fs)[i].quoted == fs[i].quoted
        } by {
            if i == 0 {
                assert(out_fields(p, fs)[0] == of0);
            } else {
                assert(out_fields(p, fs)[i] == out_fields(p2, rest)[i - 1]);
                assert(rest[i - 1] == fs[i]);
            }
        }
    }
}

/// The round-trip law for any line matching the grammar: rendering
/// well-formed fields and tokenizing the result yields exactly those
/// fields again — same names, same values, same quoting, in order.
pub proof fn lemma_grammar_round_trip(fs: Seq<GField>)
    requires
        fs.len() >= 1,
        forall|x: int| 0 <= x < fs.len() ==> wf_gfield(#[trigger] fs[x]),
    ensures
        ({
            let s = render_line(fs);
            &&& spec_tokenize(s) == Ok::<Seq<SpecField>, TokErr>(out_fields(0, fs))
            &&& out_fields(0, fs).len() == fs.len()
            &&& forall|i: int| 0 <= i < fs.len() ==> {
                &&& fname(s, #[trigger] out_fields(0, fs)[i]) == fs[i].name
                &&& fval(s, out_fields(0, fs)[i]) == fs[i].value
                &&& out_fields(0, fs)[i].quoted == fs[i].quoted
            }
        }),
{
    let s = render_line(fs);
    let rfs = render_fields(fs);
    assert(s == rfs + seq![NL]);
    assert(s.len() == rfs.len() + 1);
    assert(s[s.len() - 1] == NL) by {
        assert((rfs + seq![NL])[rfs.len() as int] == seq![NL][0]);
    }
    assert(matches_at(s, 0, rfs)) by {
        assert forall|k: int| 0 <= k < rfs.len() implies #[trigger] s[0 + k] == rfs[k] by {
            assert((rfs + seq![NL])[k] == rfs[k]);
        }
    }
    lemma_tok_fields(s, 0, fs, SpecSpan { start: 0, len: 0 }, Seq::empty());
    assert(Seq::<SpecField>::empty() + out_fields(0, fs) =~= out_fields(0, fs));
    lemma_out_fields_content(s, 0, fs);
}

} // verus!
