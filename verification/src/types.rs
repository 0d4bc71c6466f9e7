//! The typed representations the kind assemblers build, with their
//! mathematical views.

use vstd::prelude::*;

verus! {

/// The four line kinds, derived from the first field's one-byte name tag.
#[derive(Clone, Copy, Debug, PartialEq, Eq, Structural)]
pub enum LineKind {
    Jump,
    Table,
    Style,
    Record,
}

/// The closed set of column type tags a table may declare.
#[derive(Clone, Copy, Debug, PartialEq, Eq, Structural)]
pub enum ColKind {
    /// The `string` tag.
    Str,
    /// The `i32` tag.
    I32,
}

/// One name/value pair copied out of a line buffer, preserved verbatim.
#[derive(Debug, Clone)]
pub struct OwnedField {
    pub name: Vec<u8>,
    pub value: Vec<u8>,
    pub quoted: bool,
}

/// Mathematical counterpart of `OwnedField`.
pub struct OwnedFieldV {
    pub name: Seq<u8>,
    pub value: Seq<u8>,
    pub quoted: bool,
}

impl View for OwnedField {
    type V = OwnedFieldV;

    open spec fn view(&self) -> OwnedFieldV {
        OwnedFieldV { name: self.name@, value: self.value@, quoted: self.quoted }
    }
}

pub open spec fn owned_fields_view(s: Seq<OwnedField>) -> Seq<OwnedFieldV> {
    s.map_values(|f: OwnedField| f@)
}

/// One index row: a logical name mapped to a byte range in the file's
/// data region (distinct from any line's own offset).
#[derive(Debug, Clone)]
pub struct JumpEntry {
    pub name: Vec<u8>,
    pub seek: u64,
    pub length: u64,
}

/// Mathematical counterpart of `JumpEntry`.
pub struct JumpEntryV {
    pub name: Seq<u8>,
    pub seek: u64,
    pub length: u64,
}

impl View for JumpEntry {
    type V = JumpEntryV;

    open spec fn view(&self) -> JumpEntryV {
        JumpEntryV { name: self.name@, seek: self.seek, length: self.length }
    }
}

pub open spec fn jump_entries_view(s: Seq<JumpEntry>) -> Seq<JumpEntryV> {
    s.map_values(|e: JumpEntry| e@)
}

/// One column definition of a table: its name and its type tag.
#[derive(Debug, Clone)]
pub struct Col {
    pub name: Vec<u8>,
    pub kind: ColKind,
}

/// Mathematical counterpart of `Col`.
pub struct ColV {
    pub name: Seq<u8>,
    pub kind: ColKind,
}

impl View for Col {
    type V = ColV;

    open spec fn view(&self) -> ColV {
        ColV { name: self.name@, kind: self.kind }
    }
}

pub open spec fn cols_view(s: Seq<Col>) -> Seq<ColV> {
    s.map_values(|c: Col| c@)
}

/// A table's declaration: its data region and its ordered column list.
#[derive(Debug, Clone)]
pub struct TableSchema {
    pub id: Vec<u8>,
    pub name: Vec<u8>,
    pub data_pos: u64,
    pub data_len: u64,
    pub columns: Vec<Col>,
}

/// Mathematical counterpart of `TableSchema`.
pub struct TableSchemaV {
    pub id: Seq<u8>,
    pub name: Seq<u8>,
    pub data_pos: u64,
    pub data_len: u64,
    pub columns: Seq<ColV>,
}

impl View for TableSchema {
    type V = TableSchemaV;

    open spec fn view(&self) -> TableSchemaV {
        TableSchemaV {
            id: self.id@,
            name: self.name@,
            data_pos: self.data_pos,
            data_len: self.data_len,
            columns: cols_view(self.columns@),
        }
    }
}

/// Opaque presentation metadata keyed by an id; its properties are kept
/// verbatim, without type checking.
#[derive(Debug, Clone)]
pub struct StyleEntry {
    pub id: Vec<u8>,
    pub properties: Vec<OwnedField>,
}

/// Mathematical counterpart of `StyleEntry`.
pub struct StyleEntryV {
    pub id: Seq<u8>,
    pub properties: Seq<OwnedFieldV>,
}

impl View for StyleEntry {
    type V = StyleEntryV;

    open spec fn view(&self) -> StyleEntryV {
        StyleEntryV { id: self.id@, properties: owned_fields_view(self.properties@) }
    }
}

/// One undecoded data row, keyed by the table id it belongs to.  Its
/// values are raw; resolving them against the table's columns is the
/// caller's responsibility.
#[derive(Debug, Clone)]
pub struct RecordRow {
    pub id: Vec<u8>,
    pub values: Vec<OwnedField>,
}

/// Mathematical counterpart of `RecordRow`.
pub struct RecordRowV {
    pub id: Seq<u8>,
    pub values: Seq<OwnedFieldV>,
}

impl View for RecordRow {
    type V = RecordRowV;

    open spec fn view(&self) -> RecordRowV {
        RecordRowV { id: self.id@, values: owned_fields_view(self.values@) }
    }
}

} // verus!
