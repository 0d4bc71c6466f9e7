//! The error taxonomy: tokenizer grammar errors carry `(line_number,
//! byte_offset)`; assembler structural errors carry `(line_number,
//! field_index)`.

use vstd::prelude::*;

verus! {

/// Everything that can go wrong while parsing one line.  A line either
/// parses completely or fails atomically with one of these.
#[derive(Debug, Clone, Copy, PartialEq, Eq, Structural)]
pub enum XRVErr {
    /// A colon at a position where no colon may stand (inside a value,
    /// between fields, or before any name byte).  `(line, byte_offset)`.
    ExpectColon(usize, usize),
    /// A quote anywhere but right after a `:` or closing an open quote.
    /// `(line, byte_offset)`.
    UnexpectedQuote(usize, usize),
    /// A space inside a field name.  `(line, byte_offset)`.
    ExpectSpace(usize, usize),
    /// Line end inside a name or inside an unterminated quoted value.
    /// `(line, byte_offset)`.
    NotExpectingNewline(usize, usize),
    /// Line end directly after `:`: the field's value is missing and is
    /// not accepted as an empty value.  `(line, byte_offset)`.
    MissingValue(usize, usize),
    /// The first field's name is not exactly one of the single bytes
    /// `j`, `t`, `s`, `r`.  `(line, field_index)`.
    UnknownLineKind(usize, usize),
    /// The line ends before the fixed fields its kind requires.
    /// `(line, first_missing_field_index)`.
    TooFewFields(usize, usize),
    /// A jump line whose label field is not named `jumps`.
    /// `(line, field_index)`.
    NotJumpsLine(usize, usize),
    /// A jump entry's value has no dash between seek and length.
    /// `(line, field_index)`.
    MissingDash(usize, usize),
    /// A value that must be a decimal integer is empty, holds a
    /// non-digit, or does not fit.  `(line, field_index)`.
    NotDecimal(usize, usize),
    /// A table line whose second field is not named `name`.
    /// `(line, field_index)`.
    NameFieldExpected(usize, usize),
    /// A table line whose third field is not named `pos`.
    /// `(line, field_index)`.
    PosFieldExpected(usize, usize),
    /// A table line whose fourth field is not named `len`.
    /// `(line, field_index)`.
    LenFieldExpected(usize, usize),
    /// A column definition whose type tag is outside the closed set.
    /// `(line, field_index)`.
    UnknownTypeTag(usize, usize),
}

} // verus!
