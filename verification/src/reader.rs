//! The reader drives the pipeline: it takes one physical line, runs
//! tokenizer, classifier and the matching assembler, updates the registry
//! for jump, table and style lines, and yields record rows.  The byte
//! source itself (file, stream) stays outside; it hands each line's bytes
//! and absolute offset in, and performs the positioned reads that
//! `locate` makes possible.

use vstd::prelude::*;
use crate::assemble::{
    AsmErr, KIND_JUMP, KIND_RECORD, KIND_STYLE, KIND_TABLE, asm_err_of, assemble_jump,
    assemble_record, assemble_style, assemble_table, classify, dash_pos, kw_i32, kw_jumps,
    kw_len, kw_name, kw_pos, kw_string, lemma_cols_ok, lemma_jump_entries_ok,
    spec_assemble_jump, spec_assemble_record, spec_assemble_style, spec_assemble_table,
    spec_classify, spec_cols, spec_jump_entries, spec_props,
};
use crate::bytes::copy_range;
use crate::errors::XRVErr;
use crate::grammar::{
    GField, lemma_grammar_round_trip, out_field, out_fields, render_line, wf_gfield,
};
use crate::num::{dec_val, parses_u64};
use crate::registry::Registry;
use crate::span::{fields_view, fname, fval};
use crate::tok::{TokErr, lemma_tokenize_wf, spec_tokenize, tok_err_of, tokenize};
use crate::types::{
    ColKind, ColV, JumpEntry, JumpEntryV, LineKind, RecordRow, RecordRowV, StyleEntry,
    StyleEntryV, TableSchema, TableSchemaV, jump_entries_view,
};

verus! {

/// One physical line: its owned bytes and its absolute position in the
/// file.  All field spans of the line reference this buffer exclusively.
pub struct Line {
    pub buffer: Vec<u8>,
    pub start: u64,
    pub len: usize,
}

impl Line {
    /// `len` records how many bytes the line owns.
    pub open spec fn wf(&self) -> bool {
        self.len == self.buffer@.len()
    }

    /// Wraps one physical line read at absolute offset `start`.
    pub fn new(buffer: Vec<u8>, start: u64) -> (r: Line)
        ensures
            r.wf(),
            r.buffer@ == buffer@,
            r.start == start,
    {
        let len = buffer.len();
        Line { buffer, start, len }
    }
}

/// A growable line buffer with the count of lines it has taken in; a
/// byte source can use one to carry bytes between reads.
pub struct XraveBuffer {
    pub buffer: Vec<u8>,
    pub line: usize,
}

impl XraveBuffer {
    /// An empty buffer that has seen no lines.
    pub fn new() -> (r: XraveBuffer)
        ensures
            r.buffer@.len() == 0,
            r.line == 0,
    {
        XraveBuffer { buffer: Vec::new(), line: 0 }
    }
}

/// What one parsed line amounts to: a registry update confirmation for
/// jump, table and style lines (with the count of entries or the id that
/// was registered), or the record row itself, which is never stored.
#[derive(Debug)]
pub enum Lines {
    JumpLine(usize),
    TableLine(Vec<u8>),
    StyleLine(Vec<u8>),
    RecordLine(RecordRow),
}

/// A parse error of either stage.
pub enum ErrSpec {
    Tok(TokErr),
    Asm(AsmErr),
}

/// The executable error for a parse error on line `line`.
pub open spec fn err_of(e: ErrSpec, line: usize) -> XRVErr {
    match e {
        ErrSpec::Tok(t) => tok_err_of(t, line),
        ErrSpec::Asm(a) => asm_err_of(a, line),
    }
}

/// What processing one line buffer yields.
pub enum StepSpec {
    Fail(ErrSpec),
    Jump(Seq<JumpEntryV>),
    Table(TableSchemaV),
    Style(StyleEntryV),
    Record(RecordRowV),
}

/// The mathematical outcome of one `next` step on the bytes of one
/// line: tokenize, classify, then assemble for the line's kind.
pub open spec fn spec_step(s: Seq<u8>) -> StepSpec {
    match spec_tokenize(s) {
        Err(e) => StepSpec::Fail(ErrSpec::Tok(e)),
        Ok(fs) => match spec_classify(s, fs) {
            None => StepSpec::Fail(ErrSpec::Asm(AsmErr::UnknownKind)),
            Some(LineKind::Jump) => match spec_assemble_jump(s, fs) {
                Ok(es) => StepSpec::Jump(es),
                Err(e) => StepSpec::Fail(ErrSpec::Asm(e)),
            },
            Some(LineKind::Table) => match spec_assemble_table(s, fs) {
                Ok(t) => StepSpec::Table(t),
                Err(e) => StepSpec::Fail(ErrSpec::Asm(e)),
            },
            Some(LineKind::Style) => StepSpec::Style(spec_assemble_style(s, fs)),
            Some(LineKind::Record) => StepSpec::Record(spec_assemble_record(s, fs)),
        },
    }
}

/// Registering jump entries in order: an entry further right overwrites
/// an earlier one of the same name.
pub open spec fn insert_jumps(m: Map<Seq<u8>, JumpEntryV>, es: Seq<JumpEntryV>) -> Map<
    Seq<u8>,
    JumpEntryV,
>
    decreases es.len(),
{
    if es.len() == 0 {
        m
    } else {
        insert_jumps(m.insert(es[0].name, es[0]), es.drop_first())
    }
}

/// Round trip of a whole record line: rendering a grammar line whose
/// tag field is named `r` and running the full pipeline on it yields a
/// record row carrying exactly the original name/value pairs — the tag
/// field's value as the id, every later field verbatim — and no step
/// consults or touches any registry state.
pub proof fn lemma_record_line_round_trip(fs: Seq<GField>)
    requires
        fs.len() >= 1,
        forall|x: int| 0 <= x < fs.len() ==> wf_gfield(#[trigger] fs[x]),
        fs[0].name == seq![KIND_RECORD],
    ensures
        ({
            let s = render_line(fs);
            &&& spec_step(s) matches StepSpec::Record(rr)
            &&& spec_step(s)->Record_0.id == fs[0].value
            &&& spec_step(s)->Record_0.values.len() == fs.len() - 1
            &&& forall|i: int| 1 <= i < fs.len() ==> {
                &&& (#[trigger] spec_step(s)->Record_0.values[i - 1]).name == fs[i].name
                &&& spec_step(s)->Record_0.values[i - 1].value == fs[i].value
                &&& spec_step(s)->Record_0.values[i - 1].quoted == fs[i].quoted
            }
        }),
{
    let s = render_line(fs);
    lemma_grammar_round_trip(fs);
    let out = out_fields(0, fs);
    assert(out[0] == out_field(0, fs[0])) by {
        assert(out == seq![out_field(0, fs[0])] + out_fields(
            0 + crate::grammar::flen(fs[0]) + 1, fs.drop_first()));
    }
    assert(out[0].name.len == 1);
    assert(fname(s, out[0]) == fs[0].name);
    assert(fname(s, out[0])[0] == s[out[0].name.start + 0]);
    assert(s[out[0].name.start] == KIND_RECORD);
    assert(spec_classify(s, out) == Some(LineKind::Record));
    let rr = spec_assemble_record(s, out);
    assert(spec_step(s) == StepSpec::Record(rr));
    let tail = out.subrange(1, out.len() as int);
    assert(rr.values == spec_props(s, tail));
    assert forall|i: int| 1 <= i < fs.len() implies {
        &&& (#[trigger] rr.values[i - 1]).name == fs[i].name
        &&& rr.values[i - 1].value == fs[i].value
        &&& rr.values[i - 1].quoted == fs[i].quoted
    } by {
        assert(tail[i - 1] == out[i]);
        assert(fname(s, out[i]) == fs[i].name);
        assert(fval(s, out[i]) == fs[i].value);
    }
}

/// Round trip of a whole style line: rendering a grammar line whose tag
/// field is named `s` and running the full pipeline on it yields a
/// style entry carrying exactly the original name/value pairs, opaque
/// and verbatim.
pub proof fn lemma_style_line_round_trip(fs: Seq<GField>)
    requires
        fs.len() >= 1,
        forall|x: int| 0 <= x < fs.len() ==> wf_gfield(#[trigger] fs[x]),
        fs[0].name == seq![KIND_STYLE],
    ensures
        ({
            let s = render_line(fs);
            &&& spec_step(s) matches StepSpec::Style(sv)
            &&& spec_step(s)->Style_0.id == fs[0].value
            &&& spec_step(s)->Style_0.properties.len() == fs.len() - 1
            &&& forall|i: int| 1 <= i < fs.len() ==> {
                &&& (#[trigger] spec_step(s)->Style_0.properties[i - 1]).name == fs[i].name
                &&& spec_step(s)->Style_0.properties[i - 1].value == fs[i].value
                &&& spec_step(s)->Style_0.properties[i - 1].quoted == fs[i].quoted
            }
        }),
{
    let s = render_line(fs);
    lemma_grammar_round_trip(fs);
    let out = out_fields(0, fs);
    assert(out[0] == out_field(0, fs[0])) by {
        assert(out == seq![out_field(0, fs[0])] + out_fields(
            0 + crate::grammar::flen(fs[0]) + 1, fs.drop_first()));
    }
    assert(out[0].name.len == 1);
    assert(fname(s, out[0]) == fs[0].name);
    assert(fname(s, out[0])[0] == s[out[0].name.start + 0]);
    assert(s[out[0].name.start] == KIND_STYLE);
    assert(spec_classify(s, out) == Some(LineKind::Style));
    let sv = spec_assemble_style(s, out);
    assert(spec_step(s) == StepSpec::Style(sv));
    let tail = out.subrange(1, out.len() as int);
    assert(sv.properties == spec_props(s, tail));
    assert forall|i: int| 1 <= i < fs.len() implies {
        &&& (#[trigger] sv.properties[i - 1]).name == fs[i].name
        &&& sv.properties[i - 1].value == fs[i].value
        &&& sv.properties[i - 1].quoted == fs[i].quoted
    } by {
        assert(tail[i - 1] == out[i]);
        assert(fname(s, out[i]) == fs[i].name);
        assert(fval(s, out[i]) == fs[i].value);
    }
}

/// Round trip of a whole jump line: rendering a grammar line whose tag
/// field is named `j`, whose label field is named `jumps`, and whose
/// entry values are dash-separated decimals, and running the full
/// pipeline on it yields exactly those entries — each name kept, seek
/// and length parsed independently from the two sides of the dash.
pub proof fn lemma_jump_line_round_trip(fs: Seq<GField>)
    requires
        fs.len() >= 2,
        forall|x: int| 0 <= x < fs.len() ==> wf_gfield(#[trigger] fs[x]),
        fs[0].name == seq![KIND_JUMP],
        fs[1].name == kw_jumps(),
        forall|k: int| 2 <= k < fs.len() ==> {
            let v = (#[trigger] fs[k]).value;
            let d = dash_pos(v);
            &&& d >= 0
            &&& parses_u64(v.subrange(0, d))
            &&& parses_u64(v.subrange(d + 1, v.len() as int))
        },
    ensures
        ({
            let s = render_line(fs);
            match spec_step(s) {
                StepSpec::Jump(es) => es.len() == fs.len() - 2
                    && forall|k: int| 2 <= k < fs.len() ==> {
                        let v = (#[trigger] fs[k]).value;
                        let d = dash_pos(v);
                        es[k - 2] == JumpEntryV {
                            name: fs[k].name,
                            seek: dec_val(v.subrange(0, d)) as u64,
                            length: dec_val(v.subrange(d + 1, v.len() as int)) as u64,
                        }
                    },
                _ => false,
            }
        }),
{
    let s = render_line(fs);
    lemma_grammar_round_trip(fs);
    let out = out_fields(0, fs);
    assert(out[0] == out_field(0, fs[0])) by {
        assert(out == seq![out_field(0, fs[0])] + out_fields(
            0 + crate::grammar::flen(fs[0]) + 1, fs.drop_first()));
    }
    assert(out[0].name.len == 1);
    assert(fname(s, out[0]) == fs[0].name);
    assert(fname(s, out[0])[0] == s[out[0].name.start + 0]);
    assert(s[out[0].name.start] == KIND_JUMP);
    assert(spec_classify(s, out) == Some(LineKind::Jump));
    assert(fname(s, out[1]) == kw_jumps());
    assert forall|k: int| 2 <= k < out.len() implies {
        let v = fval(s, #[trigger] out[k]);
        let d = dash_pos(v);
        &&& d >= 0
        &&& parses_u64(v.subrange(0, d))
        &&& parses_u64(v.subrange(d + 1, v.len() as int))
    } by {
        assert(fval(s, out[k]) == fs[k].value);
    }
    lemma_jump_entries_ok(s, out, 2);
    match spec_jump_entries(s, out, 2) {
        Ok(es) => {
            assert(spec_step(s) == StepSpec::Jump(es));
            assert forall|k: int| 2 <= k < fs.len() implies {
                let v = (#[trigger] fs[k]).value;
                let d = dash_pos(v);
                es[k - 2] == JumpEntryV {
                    name: fs[k].name,
                    seek: dec_val(v.subrange(0, d)) as u64,
                    length: dec_val(v.subrange(d + 1, v.len() as int)) as u64,
                }
            } by {
                assert(fval(s, out[k]) == fs[k].value);
                assert(fname(s, out[k]) == fs[k].name);
            }
        },
        Err(_) => {
            assert(false);
        },
    }
}

/// Round trip of a whole table line: rendering a grammar line whose tag
/// field is named `t`, whose fixed prefix is `name`, `pos` and `len`
/// with decimal values, and whose column tags belong to the closed set,
/// and running the full pipeline on it yields exactly that schema —
/// the tag field's value as the id, the name verbatim, the numbers
/// parsed, the columns in order.
pub proof fn lemma_table_line_round_trip(fs: Seq<GField>)
    requires
        fs.len() >= 4,
        forall|x: int| 0 <= x < fs.len() ==> wf_gfield(#[trigger] fs[x]),
        fs[0].name == seq![KIND_TABLE],
        fs[1].name == kw_name(),
        fs[2].name == kw_pos(),
        parses_u64(fs[2].value),
        fs[3].name == kw_len(),
        parses_u64(fs[3].value),
        forall|k: int| 4 <= k < fs.len() ==> (#[trigger] fs[k]).value == kw_string()
            || fs[k].value == kw_i32(),
    ensures
        ({
            let s = render_line(fs);
            match spec_step(s) {
                StepSpec::Table(t) => t.id == fs[0].value && t.name == fs[1].value
                    && t.data_pos == dec_val(fs[2].value) as u64
                    && t.data_len == dec_val(fs[3].value) as u64
                    && t.columns.len() == fs.len() - 4
                    && forall|k: int| 4 <= k < fs.len() ==> t.columns[k - 4] == ColV {
                        name: (#[trigger] fs[k]).name,
                        kind: if fs[k].value == kw_string() {
                            ColKind::Str
                        } else {
                            ColKind::I32
                        },
                    },
                _ => false,
            }
        }),
{
    let s = render_line(fs);
    lemma_grammar_round_trip(fs);
    let out = out_fields(0, fs);
    assert(out[0] == out_field(0, fs[0])) by {
        assert(out == seq![out_field(0, fs[0])] + out_fields(
            0 + crate::grammar::flen(fs[0]) + 1, fs.drop_first()));
    }
    assert(out[0].name.len == 1);
    assert(fname(s, out[0]) == fs[0].name);
    assert(fname(s, out[0])[0] == s[out[0].name.start + 0]);
    assert(s[out[0].name.start] == KIND_TABLE);
    assert(spec_classify(s, out) == Some(LineKind::Table));
    assert(fname(s, out[1]) == kw_name());
    assert(fname(s, out[2]) == kw_pos());
    assert(fname(s, out[3]) == kw_len());
    assert(fval(s, out[2]) == fs[2].value);
    assert(fval(s, out[3]) == fs[3].value);
    assert forall|k: int| 4 <= k < out.len() implies fval(s, #[trigger] out[k])
        == kw_string() || fval(s, out[k]) == kw_i32() by {
        assert(fval(s, out[k]) == fs[k].value);
    }
    lemma_cols_ok(s, out, 4);
    match spec_cols(s, out, 4) {
        Ok(cs) => {
            assert(spec_assemble_table(s, out) matches Ok(t) && spec_step(s)
                == StepSpec::Table(t));
            assert forall|k: int| 4 <= k < fs.len() implies cs[k - 4] == ColV {
                name: (#[trigger] fs[k]).name,
                kind: if fs[k].value == kw_string() {
                    ColKind::Str
                } else {
                    ColKind::I32
                },
            } by {
                assert(fval(s, out[k]) == fs[k].value);
                assert(fname(s, out[k]) == fs[k].name);
            }
        },
        Err(_) => {
            assert(false);
        },
    }
}

/// The reader: drives tokenizer, classifier and assemblers over the
/// lines it is handed, owns the registry exclusively, and counts lines.
pub struct Reader {
    line: usize,
    registry: Registry,
}

impl Reader {
    pub closed spec fn wf(&self) -> bool {
        self.registry.wf()
    }

    /// How many lines this reader has taken in.
    pub closed spec fn line_count(&self) -> usize {
        self.line
    }

    /// The jump index accumulated so far: name bytes to jump entry.
    pub closed spec fn jumps_map(&self) -> Map<Seq<u8>, JumpEntryV> {
        self.registry.jumps_map()
    }

    /// The table schemas accumulated so far: id bytes to schema.
    pub closed spec fn tables_map(&self) -> Map<Seq<u8>, TableSchemaV> {
        self.registry.tables_map()
    }

    /// The style entries accumulated so far: id bytes to entry.
    pub closed spec fn styles_map(&self) -> Map<Seq<u8>, StyleEntryV> {
        self.registry.styles_map()
    }

    /// A fresh reader: empty registry, no lines seen.
    pub fn new() -> (r: Reader)
        ensures
            r.wf(),
            r.line_count() == 0,
            r.jumps_map() == Map::<Seq<u8>, JumpEntryV>::empty(),
            r.tables_map() == Map::<Seq<u8>, TableSchemaV>::empty(),
            r.styles_map() == Map::<Seq<u8>, StyleEntryV>::empty(),
    {
        Reader { line: 0, registry: Registry::new() }
    }

    /// The reported line counter; it advances by exactly one per `next`
    /// call.
    pub fn lines_read(&self) -> (r: usize)
        ensures
            r == self.line_count(),
    {
        self.line
    }

    /// Takes one physical line, parses it atomically, updates the
    /// registry for jump, table and style lines, and yields the row of a
    /// record line.  Errors are stamped with the line's number and leave
    /// the registry unchanged; the line counter advances either way.
    pub fn next(&mut self, line: Line) -> (r: Result<Lines, XRVErr>)
        requires
            old(self).wf(),
            old(self).line_count() < usize::MAX,
        ensures
            final(self).wf(),
            final(self).line_count() == old(self).line_count() + 1,
            ({
                let ln = (old(self).line_count() + 1) as usize;
                match spec_step(line.buffer@) {
                    StepSpec::Fail(e) => r == Err::<Lines, XRVErr>(err_of(e, ln))
                        && final(self).jumps_map() == old(self).jumps_map()
                        && final(self).tables_map() == old(self).tables_map()
                        && final(self).styles_map() == old(self).styles_map(),
                    StepSpec::Jump(es) => r == Ok::<Lines, XRVErr>(Lines::JumpLine(
                        es.len() as usize))
                        && final(self).jumps_map() == insert_jumps(old(self).jumps_map(), es)
                        && final(self).tables_map() == old(self).tables_map()
                        && final(self).styles_map() == old(self).styles_map(),
                    StepSpec::Table(t) => (r matches Ok(l) && l matches Lines::TableLine(id)
                        && id@ == t.id)
                        && final(self).tables_map() == old(self).tables_map().insert(t.id, t)
                        && final(self).jumps_map() == old(self).jumps_map()
                        && final(self).styles_map() == old(self).styles_map(),
                    StepSpec::Style(sv) => (r matches Ok(l) && l matches Lines::StyleLine(id)
                        && id@ == sv.id)
                        && final(self).styles_map() == old(self).styles_map().insert(sv.id, sv)
                        && final(self).jumps_map() == old(self).jumps_map()
                        && final(self).tables_map() == old(self).tables_map(),
                    StepSpec::Record(rr) => (r matches Ok(l) && l matches Lines::RecordLine(
                        row) && row@ == rr)
                        && final(self).jumps_map() == old(self).jumps_map()
                        && final(self).tables_map() == old(self).tables_map()
                        && final(self).styles_map() == old(self).styles_map(),
                }
            }),
    {
        self.line = self.line + 1;
        let linenum = self.line;
        let ghost s = line.buffer@;
        let fields = match tokenize(&line.buffer, linenum) {
            Err(e) => {
                return Err(e);
            },
            Ok(fs) => fs,
        };
        proof {
            lemma_tokenize_wf(s);
        }
        let kind = match classify(&line.buffer, &fields, linenum) {
            Err(e) => {
                return Err(e);
            },
            Ok(k) => k,
        };
        match kind {
            LineKind::Jump => {
                let mut entries = match assemble_jump(&line.buffer, &fields, linenum) {
                    Err(e) => {
                        return Err(e);
                    },
                    Ok(es) => es,
                };
                let count = entries.len();
                let ghost es0 = jump_entries_view(entries@);
                let ghost j0 = self.registry.jumps_map();
                let ghost t0 = self.registry.tables_map();
                let ghost y0 = self.registry.styles_map();
                let ghost line0 = self.line;
                while entries.len() > 0
                    invariant
                        self.registry.wf(),
                        self.line == line0,
                        insert_jumps(j0, es0) == insert_jumps(self.registry.jumps_map(),
                            jump_entries_view(entries@)),
                        self.registry.tables_map() == t0,
                        self.registry.styles_map() == y0,
                    decreases entries@.len(),
                {
                    let ghost before = entries@;
                    let e = entries.remove(0);
                    proof {
                        assert(before.remove(0) =~= before.drop_first());
                        assert(jump_entries_view(before.drop_first())
                            =~= jump_entries_view(before).drop_first());
                        assert(jump_entries_view(before)[0] == e@);
                    }
                    self.registry.add_jump(e);
                }
                proof {
                    assert(insert_jumps(self.registry.jumps_map(),
                        jump_entries_view(entries@)) == self.registry.jumps_map());
                }
                Ok(Lines::JumpLine(count))
            },
            LineKind::Table => {
                let schema = match assemble_table(&line.buffer, &fields, linenum) {
                    Err(e) => {
                        return Err(e);
                    },
                    Ok(t) => t,
                };
                let id = copy_range(&schema.id, 0, schema.id.len());
                proof {
                    assert(id@ =~= schema.id@);
                }
                self.registry.add_table(schema);
                Ok(Lines::TableLine(id))
            },
            LineKind::Style => {
                let entry = assemble_style(&line.buffer, &fields);
                let id = copy_range(&entry.id, 0, entry.id.len());
                proof {
                    assert(id@ =~= entry.id@);
                }
                self.registry.add_style(entry);
                Ok(Lines::StyleLine(id))
            },
            LineKind::Record => {
                let row = assemble_record(&line.buffer, &fields);
                Ok(Lines::RecordLine(row))
            },
        }
    }

    /// Looks `name` up in the jump index and returns its data region as
    /// `(seek, length)` for a positioned read.  A miss is a normal,
    /// recoverable outcome.
    pub fn locate(&self, name: &Vec<u8>) -> (r: Option<(u64, u64)>)
        requires
            self.wf(),
        ensures
            match r {
                Some(p) => self.jumps_map().contains_key(name@)
                    && p.0 == self.jumps_map()[name@].seek
                    && p.1 == self.jumps_map()[name@].length,
                None => !self.jumps_map().contains_key(name@),
            },
    {
        match self.registry.jump(name) {
            Some(e) => Some((e.seek, e.length)),
            None => None,
        }
    }

    /// The table schema registered under `id`, if any; after a
    /// re-registration this reflects only the newest definition.
    pub fn table(&self, id: &Vec<u8>) -> (r: Option<&TableSchema>)
        requires
            self.wf(),
        ensures
            match r {
                Some(t) => self.tables_map().contains_key(id@) && t@ == self.tables_map()[id@],
                None => !self.tables_map().contains_key(id@),
            },
    {
        self.registry.table(id)
    }

    /// The style entry registered under `id`, if any.
    pub fn style(&self, id: &Vec<u8>) -> (r: Option<&StyleEntry>)
        requires
            self.wf(),
        ensures
            match r {
                Some(e) => self.styles_map().contains_key(id@) && e@ == self.styles_map()[id@],
                None => !self.styles_map().contains_key(id@),
            },
    {
        self.registry.style(id)
    }

    /// The jump entry registered under `name`, if any.
    pub fn jump(&self, name: &Vec<u8>) -> (r: Option<&JumpEntry>)
        requires
            self.wf(),
        ensures
            match r {
                Some(e) => self.jumps_map().contains_key(name@) && e@ == self.jumps_map()[name@],
                None => !self.jumps_map().contains_key(name@),
            },
    {
        self.registry.jump(name)
    }
}

} // verus!
