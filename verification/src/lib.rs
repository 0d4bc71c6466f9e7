//! Reader for the XRV line-oriented, self-indexing tabular text format.
//!
//! Each physical line starts with a one-byte kind tag (`j`, `t`, `s` or `r`)
//! and carries colon-separated `name:value` fields; a value is either a bare
//! token or a double-quote-delimited token that may contain spaces and colons.
//! The crate tokenizes a line into byte spans, classifies it, assembles the
//! typed representation of its kind, and keeps a registry of jump entries,
//! table schemas and style entries, which a caller can use for random access
//! into the file's data region.

pub mod assemble;
pub mod bytes;
pub mod errors;
pub mod grammar;
pub mod num;
pub mod reader;
pub mod registry;
pub mod types;
pub mod span;
pub mod tok;
