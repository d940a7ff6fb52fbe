//! The recoverable error kinds of the synthesis pipeline.

use vstd::prelude::*;

verus! {

/// What went wrong in one local step.  All of these are recoverable: a
/// malformed vertex is skipped, an empty intersection produces no
/// compartment, a zero density produces no trees, and an out-of-range buffer
/// write is refused.
#[derive(Debug, Clone, Copy, PartialEq, Eq, Structural)]
pub enum CoreError {
    /// A coordinate token could not be parsed.
    FormatError,
    /// A stand/query intersection is empty.
    EmptyGeometry,
    /// A sampling unit's total stem count resolves to zero.
    ZeroDensity,
    /// A stand has no tree-stand survey data.
    MissingStrata,
    /// A requested write lies beyond the pre-sized output buffer.
    BufferOverflow,
}

impl CoreError {
    /// A short human-readable name of the error kind.
    pub fn message(&self) -> (m: &'static str)
        ensures
            self is FormatError ==> m@ == "malformed coordinate"@,
            self is EmptyGeometry ==> m@ == "empty geometry"@,
            self is ZeroDensity ==> m@ == "zero density"@,
            self is MissingStrata ==> m@ == "missing strata"@,
            self is BufferOverflow ==> m@ == "buffer overflow"@,
    {
        match self {
            CoreError::FormatError => "malformed coordinate",
            CoreError::EmptyGeometry => "empty geometry",
            CoreError::ZeroDensity => "zero density",
            CoreError::MissingStrata => "missing strata",
            CoreError::BufferOverflow => "buffer overflow",
        }
    }
}

} // verus!
