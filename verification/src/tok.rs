//! The field tokenizer: scans one line buffer and emits ordered
//! name/value byte-range pairs, honoring quoting, with per-byte error
//! locations.

use vstd::prelude::*;
use crate::errors::XRVErr;
use crate::span::{ByteSpan, Field, SpecField, SpecSpan, fields_view, wf_field, wf_fields, wf_span};

verus! {

/// `:` — closes a name and opens its value.
pub const COLON: u8 = 58;

/// `"` — delimits a quoted value.
pub const QUOTE: u8 = 34;

/// ` ` — separates fields.
pub const SPACE: u8 = 32;

/// Carriage return; an optional line terminator before the newline.
pub const CR: u8 = 13;

/// Newline; terminates the line.
pub const NL: u8 = 10;

/// Tokenizer states.
///
/// - `ExpectMid`: scanning a name.
/// - `ExpectEnd`: name closed; scanning a value.
/// - `ExpectStart`: value closed; skipping to the next name.
/// - `ExpectBracket`: inside a quoted value.
#[derive(Clone, Copy)]
pub enum FieldState {
    ExpectMid,
    ExpectEnd,
    ExpectStart,
    ExpectBracket,
}

/// A grammar error of the tokenizer, carrying the exact byte offset at
/// which the line violates the grammar.
pub enum TokErr {
    /// A colon where none may stand (in a value, between fields, or
    /// before any name byte).
    Colon { at: int },
    /// A quote anywhere but right after a `:` or closing an open quote.
    Quote { at: int },
    /// A space inside a name.
    SpaceInName { at: int },
    /// Line end inside a name or an unterminated quote.
    Newline { at: int },
    /// Line end right after a `:`: a field's value is missing, which is
    /// not accepted as an empty value.
    EmptyValue { at: int },
}

/// One step per byte of the tokenizer's state machine, from position `i`
/// onward.  `seek` is the start of the span being scanned (a name in
/// `ExpectMid`, a value in `ExpectEnd` and `ExpectBracket`); `nm` is the
/// pending name span once a name has been closed; `acc` holds the fields
/// emitted so far.  Reaching the end of the buffer is treated exactly like
/// a newline.
pub open spec fn tok_from(
    s: Seq<u8>,
    i: int,
    st: FieldState,
    seek: int,
    nm: SpecSpan,
    acc: Seq<SpecField>,
) -> Result<Seq<SpecField>, TokErr>
    decreases s.len() - i,
{
    if i >= s.len() {
        match st {
            FieldState::ExpectStart => Ok(acc),
            FieldState::ExpectEnd => if seek == s.len() {
                Err(TokErr::EmptyValue { at: s.len() as int })
            } else {
                Ok(acc.push(SpecField {
                    name: nm,
                    value: SpecSpan { start: seek, len: s.len() - seek },
                    quoted: false,
                }))
            },
            _ => Err(TokErr::Newline { at: s.len() as int }),
        }
    } else {
        let b = s[i];
        match st {
            FieldState::ExpectMid => {
                if b == COLON {
                    if seek == i {
                        Err(TokErr::Colon { at: i })
                    } else {
                        tok_from(s, i + 1, FieldState::ExpectEnd, i + 1,
                            SpecSpan { start: seek, len: i - seek }, acc)
                    }
                } else if b == QUOTE {
                    Err(TokErr::Quote { at: i })
                } else if b == SPACE {
                    Err(TokErr::SpaceInName { at: i })
                } else if b == CR || b == NL {
                    Err(TokErr::Newline { at: i })
                } else {
                    tok_from(s, i + 1, FieldState::ExpectMid, seek, nm, acc)
                }
            },
            FieldState::ExpectEnd => {
                if b == COLON {
                    Err(TokErr::Colon { at: i })
                } else if b == QUOTE {
                    if seek == i {
                        tok_from(s, i + 1, FieldState::ExpectBracket, i + 1, nm, acc)
                    } else {
                        Err(TokErr::Quote { at: i })
                    }
                } else if b == SPACE {
                    tok_from(s, i + 1, FieldState::ExpectStart, i + 1, nm,
                        acc.push(SpecField {
                            name: nm,
                            value: SpecSpan { start: seek, len: i - seek },
                            quoted: false,
                        }))
                } else if b == CR || b == NL {
                    if seek == i {
                        Err(TokErr::EmptyValue { at: i })
                    } else {
                        Ok(acc.push(SpecField {
                            name: nm,
                            value: SpecSpan { start: seek, len: i - seek },
                            quoted: false,
                        }))
                    }
                } else {
                    tok_from(s, i + 1, FieldState::ExpectEnd, seek, nm, acc)
                }
            },
            FieldState::ExpectStart => {
                if b == SPACE {
                    tok_from(s, i + 1, FieldState::ExpectStart, seek, nm, acc)
                } else if b == CR || b == NL {
                    Ok(acc)
                } else if b == COLON {
                    Err(TokErr::Colon { at: i })
                } else if b == QUOTE {
                    Err(TokErr::Quote { at: i })
                } else {
                    tok_from(s, i + 1, FieldState::ExpectMid, i, nm, acc)
                }
            },
            FieldState::ExpectBracket => {
                if b == QUOTE {
                    tok_from(s, i + 1, FieldState::ExpectStart, i + 1, nm,
                        acc.push(SpecField {
                            name: nm,
                            value: SpecSpan { start: seek, len: i - seek },
                            quoted: true,
                        }))
                } else if b == CR || b == NL {
                    Err(TokErr::Newline { at: i })
                } else {
                    tok_from(s, i + 1, FieldState::ExpectBracket, seek, nm, acc)
                }
            },
        }
    }
}

/// The mathematical tokenization of one line buffer: the ordered fields,
/// or the first grammar error with its byte offset.
pub open spec fn spec_tokenize(s: Seq<u8>) -> Result<Seq<SpecField>, TokErr> {
    tok_from(s, 0, FieldState::ExpectMid, 0, SpecSpan { start: 0, len: 0 }, Seq::empty())
}

pub proof fn lemma_wf_fields_mono(fs: Seq<SpecField>, n: int, m: int)
    requires
        wf_fields(fs, n),
        n <= m,
    ensures
        wf_fields(fs, m),
{
    assert forall|k: int| 0 <= k < fs.len() implies wf_field(#[trigger] fs[k], m) by {
        assert(wf_field(fs[k], n));
    }
}

proof fn lemma_wf_fields_push(fs: Seq<SpecField>, f: SpecField, n: int)
    requires
        wf_fields(fs, n),
        wf_field(f, n),
    ensures
        wf_fields(fs.push(f), n),
{
    assert forall|k: int| 0 <= k < fs.push(f).len() implies wf_field(#[trigger] fs.push(f)[k], n) by {
        if k < fs.len() {
            assert(fs.push(f)[k] == fs[k]);
        } else {
            assert(fs.push(f)[k] == f);
        }
    }
}

/// Every field the tokenizer emits lies within the line buffer, and a
/// successful tokenization emits at least one field.
pub proof fn lemma_tok_from_wf(
    s: Seq<u8>,
    i: int,
    st: FieldState,
    seek: int,
    nm: SpecSpan,
    acc: Seq<SpecField>,
)
    requires
        0 <= i <= s.len(),
        0 <= seek <= i,
        wf_span(nm, i),
        wf_fields(acc, i),
    ensures
        tok_from(s, i, st, seek, nm, acc) matches Ok(fs) ==> wf_fields(fs, s.len() as int)
            && fs.len() >= acc.len()
            && (!(st is ExpectStart) ==> fs.len() >= acc.len() + 1),
    decreases s.len() - i,
{
    let n = s.len() as int;
    if i >= n {
        match st {
            FieldState::ExpectStart => {
                lemma_wf_fields_mono(acc, i, n);
            },
            FieldState::ExpectEnd => {
                if seek != n {
                    let f = SpecField {
                        name: nm,
                        value: SpecSpan { start: seek, len: n - seek },
                        quoted: false,
                    };
                    lemma_wf_fields_mono(acc, i, n);
                    assert(wf_span(nm, n));
                    lemma_wf_fields_push(acc, f, n);
                }
            },
            _ => {},
        }
    } else {
        let b = s[i];
        lemma_wf_fields_mono(acc, i, i + 1);
        assert(wf_span(nm, i + 1));
        match st {
            FieldState::ExpectMid => {
                if b == COLON && seek != i {
                    let nm2 = SpecSpan { start: seek, len: i - seek };
                    lemma_tok_from_wf(s, i + 1, FieldState::ExpectEnd, i + 1, nm2, acc);
                } else if b != COLON && b != QUOTE && b != SPACE && b != CR && b != NL {
                    lemma_tok_from_wf(s, i + 1, FieldState::ExpectMid, seek, nm, acc);
                }
            },
            FieldState::ExpectEnd => {
                if b == QUOTE && seek == i {
                    lemma_tok_from_wf(s, i + 1, FieldState::ExpectBracket, i + 1, nm, acc);
                } else if b == SPACE {
                    let f = SpecField {
                        name: nm,
                        value: SpecSpan { start: seek, len: i - seek },
                        quoted: false,
                    };
                    lemma_wf_fields_push(acc, f, i + 1);
                    lemma_tok_from_wf(s, i + 1, FieldState::ExpectStart, i + 1, nm,
                        acc.push(f));
                } else if (b == CR || b == NL) && seek != i {
                    let f = SpecField {
                        name: nm,
                        value: SpecSpan { start: seek, len: i - seek },
                        quoted: false,
                    };
                    lemma_wf_fields_mono(acc, i, n);
                    lemma_wf_fields_push(acc, f, n);
                } else if b != COLON && b != QUOTE && b != SPACE && b != CR && b != NL {
                    lemma_tok_from_wf(s, i + 1, FieldState::ExpectEnd, seek, nm, acc);
                }
            },
            FieldState::ExpectStart => {
                if b == SPACE {
                    lemma_tok_from_wf(s, i + 1, FieldState::ExpectStart, seek, nm, acc);
                } else if b == CR || b == NL {
                    lemma_wf_fields_mono(acc, i, n);
                } else if b != COLON && b != QUOTE {
                    lemma_tok_from_wf(s, i + 1, FieldState::ExpectMid, i, nm, acc);
                }
            },
            FieldState::ExpectBracket => {
                if b == QUOTE {
                    let f = SpecField {
                        name: nm,
                        value: SpecSpan { start: seek, len: i - seek },
                        quoted: true,
                    };
                    lemma_wf_fields_push(acc, f, i + 1);
                    lemma_tok_from_wf(s, i + 1, FieldState::ExpectStart, i + 1, nm,
                        acc.push(f));
                } else if b != CR && b != NL {
                    lemma_tok_from_wf(s, i + 1, FieldState::ExpectBracket, seek, nm, acc);
                }
            },
        }
    }
}

/// Corollary at the tokenizer's entry state.
pub proof fn lemma_tokenize_wf(s: Seq<u8>)
    ensures
        spec_tokenize(s) matches Ok(fs) ==> wf_fields(fs, s.len() as int) && fs.len() >= 1,
{
    lemma_tok_from_wf(s, 0, FieldState::ExpectMid, 0, SpecSpan { start: 0, len: 0 },
        Seq::empty());
}

proof fn lemma_tok_err_at(
    s: Seq<u8>,
    i: int,
    st: FieldState,
    seek: int,
    nm: SpecSpan,
    acc: Seq<SpecField>,
)
    requires
        0 <= i <= s.len(),
        0 <= seek <= i,
        (st is ExpectEnd && seek == i) ==> (i >= 1 && s[i - 1] == COLON),
    ensures
        match tok_from(s, i, st, seek, nm, acc) {
            Ok(_) => true,
            Err(e) => match e {
                TokErr::Colon { at } => i <= at < s.len() && s[at] == COLON,
                TokErr::Quote { at } => i <= at < s.len() && s[at] == QUOTE,
                TokErr::SpaceInName { at } => i <= at < s.len() && s[at] == SPACE,
                TokErr::Newline { at } => i <= at <= s.len()
                    && (at == s.len() || s[at] == CR || s[at] == NL),
                TokErr::EmptyValue { at } => i <= at <= s.len()
                    && (at == s.len() || s[at] == CR || s[at] == NL)
                    && at >= 1 && s[at - 1] == COLON,
            },
        },
    decreases s.len() - i,
{
    if i < s.len() {
        let b = s[i];
        match st {
            FieldState::ExpectMid => {
                if b == COLON && seek != i {
                    lemma_tok_err_at(s, i + 1, FieldState::ExpectEnd, i + 1,
                        SpecSpan { start: seek, len: i - seek }, acc);
                } else if b != COLON && b != QUOTE && b != SPACE && b != CR && b != NL {
                    lemma_tok_err_at(s, i + 1, FieldState::ExpectMid, seek, nm, acc);
                }
            },
            FieldState::ExpectEnd => {
                if b == QUOTE && seek == i {
                    lemma_tok_err_at(s, i + 1, FieldState::ExpectBracket, i + 1, nm, acc);
                } else if b == SPACE {
                    lemma_tok_err_at(s, i + 1, FieldState::ExpectStart, i + 1, nm,
                        acc.push(SpecField {
                            name: nm,
                            value: SpecSpan { start: seek, len: i - seek },
                            quoted: false,
                        }));
                } else if b != COLON && b != QUOTE && b != SPACE && b != CR && b != NL {
                    lemma_tok_err_at(s, i + 1, FieldState::ExpectEnd, seek, nm, acc);
                }
            },
            FieldState::ExpectStart => {
                if b == SPACE {
                    lemma_tok_err_at(s, i + 1, FieldState::ExpectStart, seek, nm, acc);
                } else if b != CR && b != NL && b != COLON && b != QUOTE {
                    lemma_tok_err_at(s, i + 1, FieldState::ExpectMid, i, nm, acc);
                }
            },
            FieldState::ExpectBracket => {
                if b == QUOTE {
                    lemma_tok_err_at(s, i + 1, FieldState::ExpectStart, i + 1, nm,
                        acc.push(SpecField {
                            name: nm,
                            value: SpecSpan { start: seek, len: i - seek },
                            quoted: true,
                        }));
                } else if b != CR && b != NL {
                    lemma_tok_err_at(s, i + 1, FieldState::ExpectBracket, seek, nm, acc);
                }
            },
        }
    }
}

/// Every tokenizer error reports the exact offending byte offset: a
/// colon, quote or space error points at that very byte; a newline error
/// points at the line end that cut a name or quote short; a
/// missing-value error points at the line end standing directly after
/// the field's colon.
pub proof fn lemma_error_offsets(s: Seq<u8>)
    ensures
        match spec_tokenize(s) {
            Ok(_) => true,
            Err(e) => match e {
                TokErr::Colon { at } => 0 <= at < s.len() && s[at] == COLON,
                TokErr::Quote { at } => 0 <= at < s.len() && s[at] == QUOTE,
                TokErr::SpaceInName { at } => 0 <= at < s.len() && s[at] == SPACE,
                TokErr::Newline { at } => 0 <= at <= s.len()
                    && (at == s.len() || s[at] == CR || s[at] == NL),
                TokErr::EmptyValue { at } => 0 <= at <= s.len()
                    && (at == s.len() || s[at] == CR || s[at] == NL)
                    && at >= 1 && s[at - 1] == COLON,
            },
        },
{
    lemma_tok_err_at(s, 0, FieldState::ExpectMid, 0, SpecSpan { start: 0, len: 0 },
        Seq::empty());
}

/// The executable error for a tokenizer error on line `line`.
pub open spec fn tok_err_of(e: TokErr, line: usize) -> XRVErr {
    match e {
        TokErr::Colon { at } => XRVErr::ExpectColon(line, at as usize),
        TokErr::Quote { at } => XRVErr::UnexpectedQuote(line, at as usize),
        TokErr::SpaceInName { at } => XRVErr::ExpectSpace(line, at as usize),
        TokErr::Newline { at } => XRVErr::NotExpectingNewline(line, at as usize),
        TokErr::EmptyValue { at } => XRVErr::MissingValue(line, at as usize),
    }
}

/// Scans one line buffer and returns its ordered name/value span pairs,
/// or the first grammar error at its exact byte offset, stamped with
/// `linenum`.
pub fn tokenize(buffer: &Vec<u8>, linenum: usize) -> (r: Result<Vec<Field>, XRVErr>)
    ensures
        match spec_tokenize(buffer@) {
            Ok(fs) => r matches Ok(v) && fields_view(v@) == fs,
            Err(e) => r == Err::<Vec<Field>, XRVErr>(tok_err_of(e, linenum)),
        },
{
    let ghost s = buffer@;
    let n = buffer.len();
    let mut fields: Vec<Field> = Vec::new();
    let mut st = FieldState::ExpectMid;
    let mut seek: usize = 0;
    let mut nm = ByteSpan { start: 0, length: 0 };
    let mut i: usize = 0;
    proof {
        assert(fields_view(fields@) =~= Seq::<SpecField>::empty());
    }
    while i < n
        invariant
            n == s.len(),
            s == buffer@,
            i <= n,
            seek <= i,
            spec_tokenize(s) == tok_from(s, i as int, st, seek as int, nm@,
                fields_view(fields@)),
        decreases n - i,
    {
        let b = buffer[i];
        match st {
            FieldState::ExpectMid => {
                if b == COLON {
                    if seek == i {
                        return Err(XRVErr::ExpectColon(linenum, i));
                    } else {
                        nm = ByteSpan { start: seek, length: i - seek };
                        seek = i + 1;
                        st = FieldState::ExpectEnd;
                    }
                } else if b == QUOTE {
                    return Err(XRVErr::UnexpectedQuote(linenum, i));
                } else if b == SPACE {
                    return Err(XRVErr::ExpectSpace(linenum, i));
                } else if b == CR || b == NL {
                    return Err(XRVErr::NotExpectingNewline(linenum, i));
                }
            },
            FieldState::ExpectEnd => {
                if b == COLON {
                    return Err(XRVErr::ExpectColon(linenum, i));
                } else if b == QUOTE {
                    if seek == i {
                        seek = i + 1;
                        st = FieldState::ExpectBracket;
                    } else {
                        return Err(XRVErr::UnexpectedQuote(linenum, i));
                    }
                } else if b == SPACE {
                    let f = Field {
                        name: nm,
                        value: ByteSpan { start: seek, length: i - seek },
                        quoted: false,
                    };
                    proof {
                        assert(fields_view(fields@.push(f)) =~= fields_view(fields@).push(f@));
                    }
                    fields.push(f);
                    seek = i + 1;
                    st = FieldState::ExpectStart;
                } else if b == CR || b == NL {
                    if seek == i {
                        return Err(XRVErr::MissingValue(linenum, i));
                    } else {
                        let f = Field {
                            name: nm,
                            value: ByteSpan { start: seek, length: i - seek },
                            quoted: false,
                        };
                        proof {
                            assert(fields_view(fields@.push(f)) =~= fields_view(fields@).push(f@));
                        }
                        fields.push(f);
                        return Ok(fields);
                    }
                }
            },
            FieldState::ExpectStart => {
                if b == SPACE {
                    // inter-field whitespace is skipped
                } else if b == CR || b == NL {
                    return Ok(fields);
                } else if b == COLON {
                    return Err(XRVErr::ExpectColon(linenum, i));
                } else if b == QUOTE {
                    return Err(XRVErr::UnexpectedQuote(linenum, i));
                } else {
                    seek = i;
                    st = FieldState::ExpectMid;
                }
            },
            FieldState::ExpectBracket => {
                if b == QUOTE {
                    let f = Field {
                        name: nm,
                        value: ByteSpan { start: seek, length: i - seek },
                        quoted: true,
                    };
                    proof {
                        assert(fields_view(fields@.push(f)) =~= fields_view(fields@).push(f@));
                    }
                    fields.push(f);
                    seek = i + 1;
                    st = FieldState::ExpectStart;
                } else if b == CR || b == NL {
                    return Err(XRVErr::NotExpectingNewline(linenum, i));
                }
            },
        }
        i += 1;
    }
    match st {
        FieldState::ExpectStart => Ok(fields),
        FieldState::ExpectEnd => {
            if seek == n {
                Err(XRVErr::MissingValue(linenum, n))
            } else {
                let f = Field {
                    name: nm,
                    value: ByteSpan { start: seek, length: n - seek },
                    quoted: false,
                };
                proof {
                    assert(fields_view(fields@.push(f)) =~= fields_view(fields@).push(f@));
                }
                fields.push(f);
                Ok(fields)
            }
        },
        _ => Err(XRVErr::NotExpectingNewline(linenum, n)),
    }
}

} // verus!
