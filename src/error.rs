//! Errors of the compression engine.

use vstd::prelude::*;
use vstd::string::StringExecFns;

verus! {

/// Failures of the compression engine, by the stage that failed.
#[derive(Debug, Clone, PartialEq, Eq)]
pub enum CompressionError {
    InvalidFormat(String),
    UnsupportedFeature(String),
    MemoryError(String),
    EncodingError(String),
    AnalysisError(String),
}

/// Text of an error: the stage's title, a colon, and the detail.
pub open spec fn message_of(e: CompressionError) -> Seq<char> {
    match e {
        CompressionError::InvalidFormat(m) => "Invalid image format: "@ + m@,
        CompressionError::UnsupportedFeature(m) => "Unsupported feature: "@ + m@,
        CompressionError::MemoryError(m) => "Memory allocation error: "@ + m@,
        CompressionError::EncodingError(m) => "Encoding error: "@ + m@,
        CompressionError::AnalysisError(m) => "Analysis error: "@ + m@,
    }
}

impl CompressionError {
    /// Human-readable text of the error.
    pub fn message(&self) -> (r: String)
        ensures
            r@ == message_of(*self),
    {
        let (title, detail) = match self {
            CompressionError::InvalidFormat(m) => ("Invalid image format: ", m),
            CompressionError::UnsupportedFeature(m) => ("Unsupported feature: ", m),
            CompressionError::MemoryError(m) => ("Memory allocation error: ", m),
            CompressionError::EncodingError(m) => ("Encoding error: ", m),
            CompressionError::AnalysisError(m) => ("Analysis error: ", m),
        };
        let mut r = String::from_str(title);
        r.append(detail.as_str());
        r
    }
}

} // verus!
