//! The errors that the library reports.
use vstd::prelude::*;

verus! {

/// What went wrong while reading annotations or carving windows.
#[derive(Debug, Clone, Copy, PartialEq, Eq, Structural)]
pub enum Error {
    /// The line is a comment; comments are removed before parsing.
    Comment,
    /// Too few columns, an unknown feature type, or a coordinate that is not a number.
    MalformedRecord,
    /// The strand column is neither `+` nor `-`.
    MalformedStrand,
    /// The `gene_id "ENSG…"` or the `transcript_id "ENST…"` attribute is absent.
    AttributeMissing,
    /// A start codon lies too close to an end of the chromosome for a full window.
    WindowOutOfBounds,
}

} // verus!
