//! The failures a parser can report.

use vstd::prelude::*;
use vstd::string::StringExecFns;

verus! {

/// Why a call failed. Every variant is fatal for the row (or chunk) it arose in.
#[derive(Debug, Clone, Copy, PartialEq, Eq, Structural)]
pub enum ParseError {
    /// The input is not a valid byte sequence for the detected encoding.
    EncodingError,
    /// The byte span of a row is larger than the configured maximum.
    OversizedRowError,
    /// Strict mode is on and the row's cell count differs from the header count.
    SchemaMismatchError,
    /// A cell holds invalid UTF-8 and lossy decoding is off.
    Utf8DecodeError,
    /// A row was to be labeled before any header list existed.
    NoHeadersDefinedError,
}

impl ParseError {
    /// The text of the reason, as a view.
    pub open spec fn reason(self) -> Seq<char> {
        match self {
            ParseError::EncodingError => "Encoding conversion error: invalid characters found"@,
            ParseError::OversizedRowError => "Row exceeds the maximum size"@,
            ParseError::SchemaMismatchError => "Row length does not match headers"@,
            ParseError::Utf8DecodeError => "UTF-8 conversion error: invalid byte sequence in cell"@,
            ParseError::NoHeadersDefinedError => "No headers defined"@,
        }
    }

    /// A human-readable reason for the failure.
    pub fn message(&self) -> (text: String)
        ensures
            text@ == self.reason(),
    {
        match self {
            ParseError::EncodingError => String::from_str(
                "Encoding conversion error: invalid characters found",
            ),
            ParseError::OversizedRowError => String::from_str("Row exceeds the maximum size"),
            ParseError::SchemaMismatchError => String::from_str(
                "Row length does not match headers",
            ),
            ParseError::Utf8DecodeError => String::from_str(
                "UTF-8 conversion error: invalid byte sequence in cell",
            ),
            ParseError::NoHeadersDefinedError => String::from_str("No headers defined"),
        }
    }
}

} // verus!
