//! Byte spans into a line's owned buffer, and the decoded field pairs.

use vstd::prelude::*;

verus! {

/// Half-open byte range referencing a line's owned buffer; it never owns
/// bytes of its own.
#[derive(Clone, Copy, Debug)]
pub struct ByteSpan {
    pub start: usize,
    pub length: usize,
}

/// Mathematical counterpart of `ByteSpan`.
pub struct SpecSpan {
    pub start: int,
    pub len: int,
}

impl View for ByteSpan {
    type V = SpecSpan;

    open spec fn view(&self) -> SpecSpan {
        SpecSpan { start: self.start as int, len: self.length as int }
    }
}

/// One decoded `name:value` pair of a line; `quoted` marks a value that was
/// delimited by double quotes (and may therefore contain spaces and colons).
#[derive(Clone, Copy, Debug)]
pub struct Field {
    pub name: ByteSpan,
    pub value: ByteSpan,
    pub quoted: bool,
}

/// Mathematical counterpart of `Field`.
pub struct SpecField {
    pub name: SpecSpan,
    pub value: SpecSpan,
    pub quoted: bool,
}

impl View for Field {
    type V = SpecField;

    open spec fn view(&self) -> SpecField {
        SpecField { name: self.name@, value: self.value@, quoted: self.quoted }
    }
}

/// The bytes a field's name span selects from the line buffer `s`.
pub open spec fn fname(s: Seq<u8>, f: SpecField) -> Seq<u8> {
    s.subrange(f.name.start, f.name.start + f.name.len)
}

/// The bytes a field's value span selects from the line buffer `s`.
pub open spec fn fval(s: Seq<u8>, f: SpecField) -> Seq<u8> {
    s.subrange(f.value.start, f.value.start + f.value.len)
}

pub open spec fn wf_span(sp: SpecSpan, n: int) -> bool {
    0 <= sp.start && 0 <= sp.len && sp.start + sp.len <= n
}

pub open spec fn wf_field(f: SpecField, n: int) -> bool {
    wf_span(f.name, n) && wf_span(f.value, n)
}

pub open spec fn wf_fields(fs: Seq<SpecField>, n: int) -> bool {
    forall|i: int| 0 <= i < fs.len() ==> wf_field(#[trigger] fs[i], n)
}

/// View of a vector of fields as a sequence of their mathematical values.
pub open spec fn fields_view(fs: Seq<Field>) -> Seq<SpecField> {
    fs.map_values(|f: Field| f@)
}

} // verus!
