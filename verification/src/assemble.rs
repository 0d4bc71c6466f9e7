//! The line classifier and the four kind-specific assemblers: they
//! validate field order and content for a line's kind and build its typed
//! representation.

use vstd::prelude::*;
use crate::bytes::copy_range;
use crate::errors::XRVErr;
use crate::num::{parses_u64, dec_val, parse_u64_range};
use crate::span::{Field, SpecField, fields_view, fname, fval, wf_field, wf_fields};
use crate::types::{
    LineKind, ColKind, Col, JumpEntry, OwnedField, StyleEntry, RecordRow, TableSchema,
    JumpEntryV, ColV, TableSchemaV, StyleEntryV, RecordRowV, OwnedFieldV,
    jump_entries_view, cols_view, owned_fields_view,
};

verus! {

/// `j` — the jump line tag.
pub const KIND_JUMP: u8 = 106;

/// `t` — the table line tag.
pub const KIND_TABLE: u8 = 116;

/// `s` — the style line tag.
pub const KIND_STYLE: u8 = 115;

/// `r` — the record line tag.
pub const KIND_RECORD: u8 = 114;

/// `-` — separates seek from length in a jump entry's value.
pub const DASH: u8 = 45;

/// The bytes of the label `jumps`.
pub open spec fn kw_jumps() -> Seq<u8> {
    seq![106u8, 117u8, 109u8, 112u8, 115u8]
}

/// The bytes of the field name `name`.
pub open spec fn kw_name() -> Seq<u8> {
    seq![110u8, 97u8, 109u8, 101u8]
}

/// The bytes of the field name `pos`.
pub open spec fn kw_pos() -> Seq<u8> {
    seq![112u8, 111u8, 115u8]
}

/// The bytes of the field name `len`.
pub open spec fn kw_len() -> Seq<u8> {
    seq![108u8, 101u8, 110u8]
}

/// The bytes of the type tag `string`.
pub open spec fn kw_string() -> Seq<u8> {
    seq![115u8, 116u8, 114u8, 105u8, 110u8, 103u8]
}

/// The bytes of the type tag `i32`.
pub open spec fn kw_i32() -> Seq<u8> {
    seq![105u8, 51u8, 50u8]
}

/// A structural error of the classifier or of a kind assembler; `at` is
/// the offending field index.
pub enum AsmErr {
    UnknownKind,
    TooFew { at: int },
    NotJumps { at: int },
    MissingDash { at: int },
    NotDecimal { at: int },
    NameExpected { at: int },
    PosExpected { at: int },
    LenExpected { at: int },
    BadTypeTag { at: int },
}

/// The executable error for a structural error on line `line`.
pub open spec fn asm_err_of(e: AsmErr, line: usize) -> XRVErr {
    match e {
        AsmErr::UnknownKind => XRVErr::UnknownLineKind(line, 0),
        AsmErr::TooFew { at } => XRVErr::TooFewFields(line, at as usize),
        AsmErr::NotJumps { at } => XRVErr::NotJumpsLine(line, at as usize),
        AsmErr::MissingDash { at } => XRVErr::MissingDash(line, at as usize),
        AsmErr::NotDecimal { at } => XRVErr::NotDecimal(line, at as usize),
        AsmErr::NameExpected { at } => XRVErr::NameFieldExpected(line, at as usize),
        AsmErr::PosExpected { at } => XRVErr::PosFieldExpected(line, at as usize),
        AsmErr::LenExpected { at } => XRVErr::LenFieldExpected(line, at as usize),
        AsmErr::BadTypeTag { at } => XRVErr::UnknownTypeTag(line, at as usize),
    }
}

/// The line kind named by the first field: its name must be exactly one
/// of the single bytes `j`, `t`, `s`, `r`.
pub open spec fn spec_classify(s: Seq<u8>, fs: Seq<SpecField>) -> Option<LineKind> {
    if fs.len() >= 1 && fs[0].name.len == 1 {
        let b = s[fs[0].name.start];
        if b == KIND_JUMP {
            Some(LineKind::Jump)
        } else if b == KIND_TABLE {
            Some(LineKind::Table)
        } else if b == KIND_STYLE {
            Some(LineKind::Style)
        } else if b == KIND_RECORD {
            Some(LineKind::Record)
        } else {
            None
        }
    } else {
        None
    }
}

/// Index of the first dash in `v`, or `-1` if `v` holds none.
pub open spec fn dash_pos(v: Seq<u8>) -> int
    decreases v.len(),
{
    if v.len() == 0 {
        -1
    } else if v[0] == DASH {
        0
    } else {
        let r = dash_pos(v.drop_first());
        if r < 0 {
            -1
        } else {
            r + 1
        }
    }
}

pub proof fn lemma_dash_pos(v: Seq<u8>)
    ensures
        dash_pos(v) == -1 ==> forall|j: int| 0 <= j < v.len() ==> v[j] != DASH,
        dash_pos(v) >= 0 ==> 0 <= dash_pos(v) < v.len() && v[dash_pos(v)] == DASH
            && forall|j: int| 0 <= j < dash_pos(v) ==> v[j] != DASH,
    decreases v.len(),
{
    if v.len() > 0 && v[0] != DASH {
        let t = v.drop_first();
        lemma_dash_pos(t);
        let r = dash_pos(t);
        if r < 0 {
            assert forall|j: int| 0 <= j < v.len() implies v[j] != DASH by {
                if j >= 1 {
                    assert(t[j - 1] == v[j]);
                }
            }
        } else {
            assert(v[r + 1] == t[r]);
            assert forall|j: int| 0 <= j < r + 1 implies v[j] != DASH by {
                if j >= 1 {
                    assert(t[j - 1] == v[j]);
                }
            }
        }
    }
}

/// The jump entries denoted by the fields from index `i` on: each value
/// must be two independently parsed dash-separated decimal integers.
pub open spec fn spec_jump_entries(s: Seq<u8>, fs: Seq<SpecField>, i: int)
    -> Result<Seq<JumpEntryV>, AsmErr>
    decreases fs.len() - i,
{
    if i >= fs.len() {
        Ok(Seq::empty())
    } else {
        let v = fval(s, fs[i]);
        let d = dash_pos(v);
        if d < 0 {
            Err(AsmErr::MissingDash { at: i })
        } else {
            let left = v.subrange(0, d);
            let right = v.subrange(d + 1, v.len() as int);
            if !parses_u64(left) || !parses_u64(right) {
                Err(AsmErr::NotDecimal { at: i })
            } else {
                match spec_jump_entries(s, fs, i + 1) {
                    Ok(rest) => Ok(seq![JumpEntryV {
                        name: fname(s, fs[i]),
                        seek: dec_val(left) as u64,
                        length: dec_val(right) as u64,
                    }] + rest),
                    Err(e) => Err(e),
                }
            }
        }
    }
}

/// A jump line: its label field (index 1) must be named `jumps` (its
/// value is ignored); every later field is one index entry.
pub open spec fn spec_assemble_jump(s: Seq<u8>, fs: Seq<SpecField>)
    -> Result<Seq<JumpEntryV>, AsmErr>
{
    if fs.len() < 2 {
        Err(AsmErr::TooFew { at: fs.len() as int })
    } else if fname(s, fs[1]) != kw_jumps() {
        Err(AsmErr::NotJumps { at: 1 })
    } else {
        spec_jump_entries(s, fs, 2)
    }
}

/// The column definitions denoted by the fields from index `i` on; the
/// type tag must belong to the closed set.
pub open spec fn spec_cols(s: Seq<u8>, fs: Seq<SpecField>, i: int)
    -> Result<Seq<ColV>, AsmErr>
    decreases fs.len() - i,
{
    if i >= fs.len() {
        Ok(Seq::empty())
    } else {
        let tag = fval(s, fs[i]);
        if tag != kw_string() && tag != kw_i32() {
            Err(AsmErr::BadTypeTag { at: i })
        } else {
            let kind = if tag == kw_string() { ColKind::Str } else { ColKind::I32 };
            match spec_cols(s, fs, i + 1) {
                Ok(rest) => Ok(seq![ColV { name: fname(s, fs[i]), kind: kind }] + rest),
                Err(e) => Err(e),
            }
        }
    }
}

/// A table line: field 0's value is the table id; field 1 must be named
/// `name`; fields 2 and 3 must be named `pos` and `len` with decimal
/// values; fields from index 4 on are column definitions.
pub open spec fn spec_assemble_table(s: Seq<u8>, fs: Seq<SpecField>)
    -> Result<TableSchemaV, AsmErr>
{
    if fs.len() < 4 {
        Err(AsmErr::TooFew { at: fs.len() as int })
    } else if fname(s, fs[1]) != kw_name() {
        Err(AsmErr::NameExpected { at: 1 })
    } else if fname(s, fs[2]) != kw_pos() {
        Err(AsmErr::PosExpected { at: 2 })
    } else if !parses_u64(fval(s, fs[2])) {
        Err(AsmErr::NotDecimal { at: 2 })
    } else if fname(s, fs[3]) != kw_len() {
        Err(AsmErr::LenExpected { at: 3 })
    } else if !parses_u64(fval(s, fs[3])) {
        Err(AsmErr::NotDecimal { at: 3 })
    } else {
        match spec_cols(s, fs, 4) {
            Ok(cs) => Ok(TableSchemaV {
                id: fval(s, fs[0]),
                name: fval(s, fs[1]),
                data_pos: dec_val(fval(s, fs[2])) as u64,
                data_len: dec_val(fval(s, fs[3])) as u64,
                columns: cs,
            }),
            Err(e) => Err(e),
        }
    }
}

/// The fields' contents, preserved verbatim as owned pairs.
pub open spec fn spec_props(s: Seq<u8>, fs: Seq<SpecField>) -> Seq<OwnedFieldV> {
    fs.map_values(|f: SpecField| OwnedFieldV {
        name: fname(s, f),
        value: fval(s, f),
        quoted: f.quoted,
    })
}

/// A style line: field 0's value is the id; every later field is an
/// opaque property, preserved verbatim.
pub open spec fn spec_assemble_style(s: Seq<u8>, fs: Seq<SpecField>) -> StyleEntryV
    recommends fs.len() >= 1,
{
    StyleEntryV {
        id: fval(s, fs[0]),
        properties: spec_props(s, fs.subrange(1, fs.len() as int)),
    }
}

/// A record line: field 0's value is the table id the row belongs to;
/// every later field is a raw, undecoded value.
pub open spec fn spec_assemble_record(s: Seq<u8>, fs: Seq<SpecField>) -> RecordRowV
    recommends fs.len() >= 1,
{
    RecordRowV {
        id: fval(s, fs[0]),
        values: spec_props(s, fs.subrange(1, fs.len() as int)),
    }
}

/// Where every entry field's value is two parseable dash-separated
/// decimals, the jump assembly succeeds and builds exactly those
/// entries, in order.
pub proof fn lemma_jump_entries_ok(s: Seq<u8>, fs: Seq<SpecField>, j: int)
    requires
        0 <= j <= fs.len(),
        forall|k: int| j <= k < fs.len() ==> {
            let v = fval(s, #[trigger] fs[k]);
            let d = dash_pos(v);
            &&& d >= 0
            &&& parses_u64(v.subrange(0, d))
            &&& parses_u64(v.subrange(d + 1, v.len() as int))
        },
    ensures
        ({
            match spec_jump_entries(s, fs, j) {
                Ok(es) => es.len() == fs.len() - j && forall|k: int| j <= k < fs.len() ==> {
                    let v = fval(s, #[trigger] fs[k]);
                    let d = dash_pos(v);
                    es[k - j] == JumpEntryV {
                        name: fname(s, fs[k]),
                        seek: dec_val(v.subrange(0, d)) as u64,
                        length: dec_val(v.subrange(d + 1, v.len() as int)) as u64,
                    }
                },
                Err(_) => false,
            }
        }),
    decreases fs.len() - j,
{
    if j < fs.len() {
        lemma_jump_entries_ok(s, fs, j + 1);
        let v = fval(s, fs[j]);
        let d = dash_pos(v);
        let e0 = JumpEntryV {
            name: fname(s, fs[j]),
            seek: dec_val(v.subrange(0, d)) as u64,
            length: dec_val(v.subrange(d + 1, v.len() as int)) as u64,
        };
        match spec_jump_entries(s, fs, j + 1) {
            Ok(rest) => {
                assert(spec_jump_entries(s, fs, j) == Ok::<Seq<JumpEntryV>, AsmErr>(
                    seq![e0] + rest));
                assert forall|k: int| j <= k < fs.len() implies {
                    let v2 = fval(s, #[trigger] fs[k]);
                    let d2 = dash_pos(v2);
                    (seq![e0] + rest)[k - j] == JumpEntryV {
                        name: fname(s, fs[k]),
                        seek: dec_val(v2.subrange(0, d2)) as u64,
                        length: dec_val(v2.subrange(d2 + 1, v2.len() as int)) as u64,
                    }
                } by {
                    if k == j {
                        assert((seq![e0] + rest)[0] == e0);
                    } else {
                        assert((seq![e0] + rest)[k - j] == rest[k - j - 1]);
                    }
                }
            },
            Err(_) => {
                assert(false);
            },
        }
    }
}

/// Where every column field's value is one of the closed set's tags,
/// column assembly succeeds and builds exactly those columns, in order.
pub proof fn lemma_cols_ok(s: Seq<u8>, fs: Seq<SpecField>, j: int)
    requires
        0 <= j <= fs.len(),
        forall|k: int| j <= k < fs.len() ==> fval(s, #[trigger] fs[k]) == kw_string()
            || fval(s, fs[k]) == kw_i32(),
    ensures
        ({
            match spec_cols(s, fs, j) {
                Ok(cs) => cs.len() == fs.len() - j && forall|k: int| j <= k < fs.len() ==> {
                    cs[k - j] == ColV {
                        name: fname(s, #[trigger] fs[k]),
                        kind: if fval(s, fs[k]) == kw_string() {
                            ColKind::Str
                        } else {
                            ColKind::I32
                        },
                    }
                },
                Err(_) => false,
            }
        }),
    decreases fs.len() - j,
{
    if j < fs.len() {
        lemma_cols_ok(s, fs, j + 1);
        let c0 = ColV {
            name: fname(s, fs[j]),
            kind: if fval(s, fs[j]) == kw_string() {
                ColKind::Str
            } else {
                ColKind::I32
            },
        };
        match spec_cols(s, fs, j + 1) {
            Ok(rest) => {
                assert(spec_cols(s, fs, j) == Ok::<Seq<ColV>, AsmErr>(seq![c0] + rest));
                assert forall|k: int| j <= k < fs.len() implies {
                    (seq![c0] + rest)[k - j] == ColV {
                        name: fname(s, #[trigger] fs[k]),
                        kind: if fval(s, fs[k]) == kw_string() {
                            ColKind::Str
                        } else {
                            ColKind::I32
                        },
                    }
                } by {
                    if k == j {
                        assert((seq![c0] + rest)[0] == c0);
                    } else {
                        assert((seq![c0] + rest)[k - j] == rest[k - j - 1]);
                    }
                }
            },
            Err(_) => {
                assert(false);
            },
        }
    }
}

/// Whether `buf[start .. start + len]` spells `jumps`.
fn range_is_jumps(buf: &Vec<u8>, start: usize, len: usize) -> (r: bool)
    requires
        start + len <= buf@.len(),
    ensures
        r == (buf@.subrange(start as int, start as int + len as int) == kw_jumps()),
{
    let ghost sub = buf@.subrange(start as int, start as int + len as int);
    let bn = buf.len();
    if len != 5 {
        proof { assert(sub.len() == len); }
        return false;
    }
    let r = buf[start] == 106 && buf[start + 1] == 117 && buf[start + 2] == 109
        && buf[start + 3] == 112 && buf[start + 4] == 115;
    proof {
        if r {
            assert(sub =~= kw_jumps());
        } else if sub == kw_jumps() {
            assert(sub[0] == buf@[start as int]);
            assert(sub[1] == buf@[start as int + 1]);
            assert(sub[2] == buf@[start as int + 2]);
            assert(sub[3] == buf@[start as int + 3]);
            assert(sub[4] == buf@[start as int + 4]);
            assert(false);
        }
    }
    r
}

/// Whether `buf[start .. start + len]` spells `name`.
fn range_is_name(buf: &Vec<u8>, start: usize, len: usize) -> (r: bool)
    requires
        start + len <= buf@.len(),
    ensures
        r == (buf@.subrange(start as int, start as int + len as int) == kw_name()),
{
    let ghost sub = buf@.subrange(start as int, start as int + len as int);
    let bn = buf.len();
    if len != 4 {
        proof { assert(sub.len() == len); }
        return false;
    }
    let r = buf[start] == 110 && buf[start + 1] == 97 && buf[start + 2] == 109
        && buf[start + 3] == 101;
    proof {
        if r {
            assert(sub =~= kw_name());
        } else if sub == kw_name() {
            assert(sub[0] == buf@[start as int]);
            assert(sub[1] == buf@[start as int + 1]);
            assert(sub[2] == buf@[start as int + 2]);
            assert(sub[3] == buf@[start as int + 3]);
            assert(false);
        }
    }
    r
}

/// Whether `buf[start .. start + len]` spells `pos`.
fn range_is_pos(buf: &Vec<u8>, start: usize, len: usize) -> (r: bool)
    requires
        start + len <= buf@.len(),
    ensures
        r == (buf@.subrange(start as int, start as int + len as int) == kw_pos()),
{
    let ghost sub = buf@.subrange(start as int, start as int + len as int);
    let bn = buf.len();
    if len != 3 {
        proof { assert(sub.len() == len); }
        return false;
    }
    let r = buf[start] == 112 && buf[start + 1] == 111 && buf[start + 2] == 115;
    proof {
        if r {
            assert(sub =~= kw_pos());
        } else if sub == kw_pos() {
            assert(sub[0] == buf@[start as int]);
            assert(sub[1] == buf@[start as int + 1]);
            assert(sub[2] == buf@[start as int + 2]);
            assert(false);
        }
    }
    r
}

/// Whether `buf[start .. start + len]` spells `len`.
fn range_is_len(buf: &Vec<u8>, start: usize, len: usize) -> (r: bool)
    requires
        start + len <= buf@.len(),
    ensures
        r == (buf@.subrange(start as int, start as int + len as int) == kw_len()),
{
    let ghost sub = buf@.subrange(start as int, start as int + len as int);
    let bn = buf.len();
    if len != 3 {
        proof { assert(sub.len() == len); }
        return false;
    }
    let r = buf[start] == 108 && buf[start + 1] == 101 && buf[start + 2] == 110;
    proof {
        if r {
            assert(sub =~= kw_len());
        } else if sub == kw_len() {
            assert(sub[0] == buf@[start as int]);
            assert(sub[1] == buf@[start as int + 1]);
            assert(sub[2] == buf@[start as int + 2]);
            assert(false);
        }
    }
    r
}

/// Whether `buf[start .. start + len]` spells `string`.
fn range_is_string(buf: &Vec<u8>, start: usize, len: usize) -> (r: bool)
    requires
        start + len <= buf@.len(),
    ensures
        r == (buf@.subrange(start as int, start as int + len as int) == kw_string()),
{
    let ghost sub = buf@.subrange(start as int, start as int + len as int);
    let bn = buf.len();
    if len != 6 {
        proof { assert(sub.len() == len); }
        return false;
    }
    let r = buf[start] == 115 && buf[start + 1] == 116 && buf[start + 2] == 114
        && buf[start + 3] == 105 && buf[start + 4] == 110 && buf[start + 5] == 103;
    proof {
        if r {
            assert(sub =~= kw_string());
        } else if sub == kw_string() {
            assert(sub[0] == buf@[start as int]);
            assert(sub[1] == buf@[start as int + 1]);
            assert(sub[2] == buf@[start as int + 2]);
            assert(sub[3] == buf@[start as int + 3]);
            assert(sub[4] == buf@[start as int + 4]);
            assert(sub[5] == buf@[start as int + 5]);
            assert(false);
        }
    }
    r
}

/// Whether `buf[start .. start + len]` spells `i32`.
fn range_is_i32(buf: &Vec<u8>, start: usize, len: usize) -> (r: bool)
    requires
        start + len <= buf@.len(),
    ensures
        r == (buf@.subrange(start as int, start as int + len as int) == kw_i32()),
{
    let ghost sub = buf@.subrange(start as int, start as int + len as int);
    let bn = buf.len();
    if len != 3 {
        proof { assert(sub.len() == len); }
        return false;
    }
    let r = buf[start] == 105 && buf[start + 1] == 51 && buf[start + 2] == 50;
    proof {
        if r {
            assert(sub =~= kw_i32());
        } else if sub == kw_i32() {
            assert(sub[0] == buf@[start as int]);
            assert(sub[1] == buf@[start as int + 1]);
            assert(sub[2] == buf@[start as int + 2]);
            assert(false);
        }
    }
    r
}

/// First dash in `buf[start .. start + len]`.
fn find_dash(buf: &Vec<u8>, start: usize, len: usize) -> (r: Option<usize>)
    requires
        start + len <= buf@.len(),
    ensures
        ({
            let v = buf@.subrange(start as int, start as int + len as int);
            match r {
                Some(k) => dash_pos(v) == k && k < len,
                None => dash_pos(v) == -1,
            }
        }),
{
    let ghost v = buf@.subrange(start as int, start as int + len as int);
    let bn = buf.len();
    let mut k: usize = 0;
    while k < len
        invariant
            start + len <= bn,
            bn == buf@.len(),
            k <= len,
            v == buf@.subrange(start as int, start as int + len as int),
            forall|j: int| 0 <= j < k ==> v[j] != DASH,
        decreases len - k,
    {
        if buf[start + k] == DASH {
            proof {
                assert(v[k as int] == DASH);
                lemma_dash_pos(v);
                if dash_pos(v) == -1 {
                    assert(false);
                } else if dash_pos(v) < k as int {
                    assert(false);
                } else if dash_pos(v) > k as int {
                    assert(false);
                }
            }
            return Some(k);
        }
        k += 1;
    }
    proof {
        lemma_dash_pos(v);
        if dash_pos(v) >= 0 {
            assert(v[dash_pos(v)] == DASH);
            assert(false);
        }
    }
    None
}

/// Reads the first field's one-byte kind tag, or reports an unknown line
/// kind stamped with `linenum`.
pub fn classify(buf: &Vec<u8>, fields: &Vec<Field>, linenum: usize) -> (r: Result<
    LineKind,
    XRVErr,
>)
    requires
        fields@.len() >= 1,
        wf_fields(fields_view(fields@), buf@.len() as int),
    ensures
        match spec_classify(buf@, fields_view(fields@)) {
            Some(k) => r == Ok::<LineKind, XRVErr>(k),
            None => r == Err::<LineKind, XRVErr>(XRVErr::UnknownLineKind(linenum, 0)),
        },
{
    let f0 = fields[0];
    proof {
        assert(fields_view(fields@)[0] == f0@);
        assert(wf_field(fields_view(fields@)[0], buf@.len() as int));
    }
    if f0.name.length == 1 {
        let b = buf[f0.name.start];
        if b == KIND_JUMP {
            Ok(LineKind::Jump)
        } else if b == KIND_TABLE {
            Ok(LineKind::Table)
        } else if b == KIND_STYLE {
            Ok(LineKind::Style)
        } else if b == KIND_RECORD {
            Ok(LineKind::Record)
        } else {
            Err(XRVErr::UnknownLineKind(linenum, 0))
        }
    } else {
        Err(XRVErr::UnknownLineKind(linenum, 0))
    }
}

/// Builds the jump entries of a jump line, or the first structural error
/// stamped with `linenum`.
pub fn assemble_jump(buf: &Vec<u8>, fields: &Vec<Field>, linenum: usize) -> (r: Result<
    Vec<JumpEntry>,
    XRVErr,
>)
    requires
        wf_fields(fields_view(fields@), buf@.len() as int),
    ensures
        match spec_assemble_jump(buf@, fields_view(fields@)) {
            Ok(es) => r matches Ok(v) && jump_entries_view(v@) == es,
            Err(e) => r == Err::<Vec<JumpEntry>, XRVErr>(asm_err_of(e, linenum)),
        },
{
    let ghost s = buf@;
    let ghost fsv = fields_view(fields@);
    let bn = buf.len();
    let nf = fields.len();
    if nf < 2 {
        return Err(XRVErr::TooFewFields(linenum, nf));
    }
    let f1 = fields[1];
    proof {
        assert(fsv[1] == f1@);
        assert(wf_field(fsv[1], s.len() as int));
    }
    if !range_is_jumps(buf, f1.name.start, f1.name.length) {
        return Err(XRVErr::NotJumpsLine(linenum, 1));
    }
    let mut out: Vec<JumpEntry> = Vec::new();
    let mut i: usize = 2;
    proof {
        assert(jump_entries_view(out@) =~= Seq::<JumpEntryV>::empty());
        match spec_jump_entries(s, fsv, 2) {
            Ok(rest) => {
                assert(jump_entries_view(out@) + rest =~= rest);
            },
            Err(_) => {},
        }
    }
    while i < nf
        invariant
            s == buf@,
            fsv == fields_view(fields@),
            bn == buf@.len(),
            nf == fields@.len(),
            2 <= i <= nf,
            wf_fields(fsv, s.len() as int),
            spec_assemble_jump(s, fsv) == (match spec_jump_entries(s, fsv, i as int) {
                Ok(rest) => Ok::<Seq<JumpEntryV>, AsmErr>(jump_entries_view(out@) + rest),
                Err(e) => Err::<Seq<JumpEntryV>, AsmErr>(e),
            }),
        decreases nf - i,
    {
        let f = fields[i];
        proof {
            assert(fsv[i as int] == f@);
            assert(wf_field(fsv[i as int], s.len() as int));
        }
        let ghost v = fval(s, fsv[i as int]);
        let vstart = f.value.start;
        let vlen = f.value.length;
        proof {
            assert(vstart as int + vlen as int <= bn as int);
        }
        match find_dash(buf, vstart, vlen) {
            None => {
                return Err(XRVErr::MissingDash(linenum, i));
            },
            Some(d) => {
                let ghost left = v.subrange(0, d as int);
                let ghost right = v.subrange(d as int + 1, v.len() as int);
                proof {
                    assert(buf@.subrange(vstart as int, vstart as int + d as int) =~= left);
                    assert(buf@.subrange(vstart as int + d as int + 1,
                        vstart as int + vlen as int) =~= right);
                }
                let pl = parse_u64_range(buf, vstart, d);
                let pr = parse_u64_range(buf, vstart + d + 1, vlen - d - 1);
                match (pl, pr) {
                    (Some(lv), Some(rv)) => {
                        let name = copy_range(buf, f.name.start, f.name.length);
                        let entry = JumpEntry { name, seek: lv, length: rv };
                        let ghost ev = JumpEntryV {
                            name: fname(s, fsv[i as int]),
                            seek: dec_val(left) as u64,
                            length: dec_val(right) as u64,
                        };
                        proof {
                            assert(entry@ == ev);
                            assert(jump_entries_view(out@.push(entry))
                                =~= jump_entries_view(out@).push(ev));
                            match spec_jump_entries(s, fsv, i as int + 1) {
                                Ok(rest) => {
                                    assert(jump_entries_view(out@).push(ev) + rest
                                        =~= jump_entries_view(out@) + (seq![ev] + rest));
                                },
                                Err(_) => {},
                            }
                        }
                        out.push(entry);
                    },
                    _ => {
                        return Err(XRVErr::NotDecimal(linenum, i));
                    },
                }
            },
        }
        i += 1;
    }
    proof {
        assert(jump_entries_view(out@) + Seq::<JumpEntryV>::empty() =~= jump_entries_view(out@));
    }
    Ok(out)
}

/// Builds the schema of a table line, or the first structural error
/// stamped with `linenum`.
pub fn assemble_table(buf: &Vec<u8>, fields: &Vec<Field>, linenum: usize) -> (r: Result<
    TableSchema,
    XRVErr,
>)
    requires
        wf_fields(fields_view(fields@), buf@.len() as int),
    ensures
        match spec_assemble_table(buf@, fields_view(fields@)) {
            Ok(t) => r matches Ok(ts) && ts@ == t,
            Err(e) => r == Err::<TableSchema, XRVErr>(asm_err_of(e, linenum)),
        },
{
    let ghost s = buf@;
    let ghost fsv = fields_view(fields@);
    let nf = fields.len();
    if nf < 4 {
        return Err(XRVErr::TooFewFields(linenum, nf));
    }
    let f0 = fields[0];
    let f1 = fields[1];
    let f2 = fields[2];
    let f3 = fields[3];
    proof {
        assert(fsv[0] == f0@);
        assert(fsv[1] == f1@);
        assert(fsv[2] == f2@);
        assert(fsv[3] == f3@);
        assert(wf_field(fsv[0], s.len() as int));
        assert(wf_field(fsv[1], s.len() as int));
        assert(wf_field(fsv[2], s.len() as int));
        assert(wf_field(fsv[3], s.len() as int));
    }
    if !range_is_name(buf, f1.name.start, f1.name.length) {
        return Err(XRVErr::NameFieldExpected(linenum, 1));
    }
    if !range_is_pos(buf, f2.name.start, f2.name.length) {
        return Err(XRVErr::PosFieldExpected(linenum, 2));
    }
    let data_pos = match parse_u64_range(buf, f2.value.start, f2.value.length) {
        None => {
            return Err(XRVErr::NotDecimal(linenum, 2));
        },
        Some(v) => v,
    };
    if !range_is_len(buf, f3.name.start, f3.name.length) {
        return Err(XRVErr::LenFieldExpected(linenum, 3));
    }
    let data_len = match parse_u64_range(buf, f3.value.start, f3.value.length) {
        None => {
            return Err(XRVErr::NotDecimal(linenum, 3));
        },
        Some(v) => v,
    };
    let mut columns: Vec<Col> = Vec::new();
    let mut i: usize = 4;
    proof {
        assert(cols_view(columns@) =~= Seq::<ColV>::empty());
        match spec_cols(s, fsv, 4) {
            Ok(rest) => {
                assert(cols_view(columns@) + rest =~= rest);
            },
            Err(_) => {},
        }
    }
    while i < nf
        invariant
            s == buf@,
            fsv == fields_view(fields@),
            nf == fields@.len(),
            4 <= i <= nf,
            wf_fields(fsv, s.len() as int),
            spec_cols(s, fsv, 4) == (match spec_cols(s, fsv, i as int) {
                Ok(rest) => Ok::<Seq<ColV>, AsmErr>(cols_view(columns@) + rest),
                Err(e) => Err::<Seq<ColV>, AsmErr>(e),
            }),
            spec_assemble_table(s, fsv) == (match spec_cols(s, fsv, 4) {
                Ok(cs) => Ok::<TableSchemaV, AsmErr>(TableSchemaV {
                    id: fval(s, fsv[0]),
                    name: fval(s, fsv[1]),
                    data_pos: dec_val(fval(s, fsv[2])) as u64,
                    data_len: dec_val(fval(s, fsv[3])) as u64,
                    columns: cs,
                }),
                Err(e) => Err::<TableSchemaV, AsmErr>(e),
            }),
            data_pos == dec_val(fval(s, fsv[2])) as u64,
            data_len == dec_val(fval(s, fsv[3])) as u64,
        decreases nf - i,
    {
        let f = fields[i];
        proof {
            assert(fsv[i as int] == f@);
            assert(wf_field(fsv[i as int], s.len() as int));
        }
        let s_tag = range_is_string(buf, f.value.start, f.value.length);
        let i_tag = range_is_i32(buf, f.value.start, f.value.length);
        if !s_tag && !i_tag {
            proof {
                assert(spec_cols(s, fsv, i as int) == Err::<Seq<ColV>, AsmErr>(
                    AsmErr::BadTypeTag { at: i as int }));
            }
            return Err(XRVErr::UnknownTypeTag(linenum, i));
        }
        let kind = if s_tag {
            ColKind::Str
        } else {
            ColKind::I32
        };
        let col = Col { name: copy_range(buf, f.name.start, f.name.length), kind };
        let ghost cv = ColV { name: fname(s, fsv[i as int]), kind: kind };
        proof {
            assert(col@ == cv);
            assert(cols_view(columns@.push(col)) =~= cols_view(columns@).push(cv));
            match spec_cols(s, fsv, i as int + 1) {
                Ok(rest) => {
                    assert(cols_view(columns@).push(cv) + rest
                        =~= cols_view(columns@) + (seq![cv] + rest));
                },
                Err(_) => {},
            }
        }
        columns.push(col);
        i += 1;
    }
    proof {
        assert(cols_view(columns@) + Seq::<ColV>::empty() =~= cols_view(columns@));
    }
    let id = copy_range(buf, f0.value.start, f0.value.length);
    let name = copy_range(buf, f1.value.start, f1.value.length);
    Ok(TableSchema { id, name, data_pos, data_len, columns })
}

/// Copies the fields from index 1 on out of the buffer, verbatim.
fn collect_props(buf: &Vec<u8>, fields: &Vec<Field>) -> (r: Vec<OwnedField>)
    requires
        fields@.len() >= 1,
        wf_fields(fields_view(fields@), buf@.len() as int),
    ensures
        owned_fields_view(r@) == spec_props(buf@, fields_view(fields@).subrange(1,
            fields_view(fields@).len() as int)),
{
    let ghost s = buf@;
    let ghost fsv = fields_view(fields@);
    let nf = fields.len();
    let mut out: Vec<OwnedField> = Vec::new();
    let mut i: usize = 1;
    proof {
        assert(owned_fields_view(out@) =~= spec_props(s, fsv.subrange(1, 1)));
    }
    while i < nf
        invariant
            s == buf@,
            fsv == fields_view(fields@),
            nf == fields@.len(),
            1 <= i <= nf,
            wf_fields(fsv, s.len() as int),
            owned_fields_view(out@) == spec_props(s, fsv.subrange(1, i as int)),
        decreases nf - i,
    {
        let f = fields[i];
        proof {
            assert(fsv[i as int] == f@);
            assert(wf_field(fsv[i as int], s.len() as int));
        }
        let p = OwnedField {
            name: copy_range(buf, f.name.start, f.name.length),
            value: copy_range(buf, f.value.start, f.value.length),
            quoted: f.quoted,
        };
        let ghost pv = OwnedFieldV {
            name: fname(s, fsv[i as int]),
            value: fval(s, fsv[i as int]),
            quoted: fsv[i as int].quoted,
        };
        proof {
            assert(p@ == pv);
            assert(fsv.subrange(1, i as int + 1) =~= fsv.subrange(1, i as int).push(
                fsv[i as int]));
            assert(owned_fields_view(out@.push(p)) =~= owned_fields_view(out@).push(pv));
            assert(spec_props(s, fsv.subrange(1, i as int).push(fsv[i as int]))
                =~= spec_props(s, fsv.subrange(1, i as int)).push(pv));
        }
        out.push(p);
        i += 1;
    }
    proof {
        assert(fsv.subrange(1, nf as int) =~= fsv.subrange(1, fsv.len() as int));
    }
    out
}

/// Builds the style entry of a style line; its properties are preserved
/// verbatim, without type checking.
pub fn assemble_style(buf: &Vec<u8>, fields: &Vec<Field>) -> (r: StyleEntry)
    requires
        fields@.len() >= 1,
        wf_fields(fields_view(fields@), buf@.len() as int),
    ensures
        r@ == spec_assemble_style(buf@, fields_view(fields@)),
{
    let f0 = fields[0];
    proof {
        assert(fields_view(fields@)[0] == f0@);
        assert(wf_field(fields_view(fields@)[0], buf@.len() as int));
    }
    let id = copy_range(buf, f0.value.start, f0.value.length);
    let properties = collect_props(buf, fields);
    StyleEntry { id, properties }
}

/// Builds the record row of a record line; the registry is never
/// consulted, the raw values are handed on as they stand.
pub fn assemble_record(buf: &Vec<u8>, fields: &Vec<Field>) -> (r: RecordRow)
    requires
        fields@.len() >= 1,
        wf_fields(fields_view(fields@), buf@.len() as int),
    ensures
        r@ == spec_assemble_record(buf@, fields_view(fields@)),
{
    let f0 = fields[0];
    proof {
        assert(fields_view(fields@)[0] == f0@);
        assert(wf_field(fields_view(fields@)[0], buf@.len() as int));
    }
    let id = copy_range(buf, f0.value.start, f0.value.length);
    let values = collect_props(buf, fields);
    RecordRow { id, values }
}

} // verus!
