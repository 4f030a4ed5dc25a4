//! The error taxonomy of the parse: every failure is classified as exactly one
//! of these kinds, and all of them abort the whole parse (fail-fast, no
//! partial aggregate).

use vstd::prelude::*;
use vstd::string::StringExecFns;

verus! {

/// Why a parse failed.
///
/// `SourceUnavailable` is raised at the I/O boundary (the input path cannot be
/// opened or read), before any row reaches the parser; the parsing functions
/// themselves return only the other three kinds.
#[derive(Clone, Copy, Debug, PartialEq, Eq, Structural)]
pub enum ClusterError {
    /// The input path cannot be opened or read.
    SourceUnavailable,
    /// The source contains zero non-comment data rows.
    NoRecords,
    /// A non-comment row has fewer than the required 13 fields.
    MalformedRow,
    /// The unit or instance field does not parse as a non-negative integer
    /// that fits in 32 bits.
    InvalidNumericField,
}

impl ClusterError {
    /// The human-readable cause string of this error kind.
    pub open spec fn message_view(self) -> Seq<char> {
        match self {
            ClusterError::SourceUnavailable => "cannot open or read the cluster file"@,
            ClusterError::NoRecords => "Found no records in cluster file"@,
            ClusterError::MalformedRow => "data row has fewer than 13 fields"@,
            ClusterError::InvalidNumericField =>
                "unit or instance field is not a non-negative integer"@,
        }
    }

    /// A human-readable description of the error, for the operator.
    pub fn message(&self) -> (r: String)
        ensures
            r@ == self.message_view(),
    {
        match self {
            ClusterError::SourceUnavailable => String::from_str(
                "cannot open or read the cluster file",
            ),
            ClusterError::NoRecords => String::from_str("Found no records in cluster file"),
            ClusterError::MalformedRow => String::from_str("data row has fewer than 13 fields"),
            ClusterError::InvalidNumericField => String::from_str(
                "unit or instance field is not a non-negative integer",
            ),
        }
    }
}

} // verus!
