//! Flattens genomic variant records into a tab-delimited text table.
//!
//! Each input record carries a reference allele and zero or more alternate
//! alleles; the table holds one row per (record, alternate allele) pair.
//! Every annotation tag declares, in the file's header, a cardinality class
//! saying how many values it carries per record, and the flattener picks the
//! value that belongs to the alternate allele of the row being emitted.
//!
//! The byte-level decoding of the container format is left to an external
//! reader; this crate works on fully decoded records made of plain values.

use vstd::prelude::*;

pub mod flatten;
pub mod record;
pub mod tags;
pub mod valuefmt;
pub mod writer;

verus! {

/// The sentinel that marks a missing integer value. It renders as an empty
/// cell, never as a number.
pub const MISSING_INTEGER: i32 = i32::MIN;

/// A fatal conversion error. Soft gaps (a tag absent from a record, or a tag
/// listed in the header without a declaration) render as empty cells instead
/// and never raise.
#[derive(Clone, Copy, Debug, PartialEq, Eq, Structural)]
pub enum ParseError {
    /// A FORMAT tag declares a cardinality class that cannot be addressed by
    /// an allele position (a variable or per-genotype count).
    UnsupportedTagLength,
    /// A FORMAT tag other than the genotype tag declares the flag value
    /// type. Flag-typed FORMAT tags are not a supported schema; the
    /// conversion fails fast rather than degrading the output.
    FlagFormatTag,
}

impl ParseError {
    /// A human-readable description of the error.
    pub fn message(&self) -> &'static str {
        match self {
            ParseError::UnsupportedTagLength => {
                "currently, only R, A, and 1 are supported multiplicities of tags"
            },
            ParseError::FlagFormatTag => {
                "flag-typed FORMAT tags are not supported; is the tag an INFO flag?"
            },
        }
    }
}

} // verus!
