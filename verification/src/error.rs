use vstd::prelude::*;

verus! {

/// The error taxonomy of the decoder.
///
/// Only `DimensionMismatch` and `SourceFormat` are produced by the verified
/// decoding functions themselves; `UnsupportedType` never aborts a decode
/// (unsupported storage types degrade to a null value), `Encoding` is avoided
/// by uniformly applying lossy text replacement, and `Sink` is reserved for
/// the persistence layer around the library.
#[derive(Debug)]
pub enum Error {
    /// A required dimension or variable is missing entirely; fatal for the file.
    SourceFormat,
    /// A storage type outside the decodable set was encountered.
    UnsupportedType,
    /// A byte sequence was not valid text.
    Encoding,
    /// A declared text width outside the supported fixed-width set, or a
    /// flat-length/shape product mismatch; fatal for the variable.
    DimensionMismatch,
    /// A persistence failure; propagated unchanged by the surrounding layer.
    Sink,
}

impl Error {
    /// A short human-readable description of the error.
    pub fn describe(&self) -> (r: &'static str)
        ensures
            r@ == self.describe_spec(),
    {
        match self {
            Error::SourceFormat => "required dimension or variable is missing",
            Error::UnsupportedType => "storage type outside the decodable set",
            Error::Encoding => "byte sequence is not valid text",
            Error::DimensionMismatch => "declared shape does not match the data",
            Error::Sink => "persistence failure",
        }
    }

    pub open spec fn describe_spec(&self) -> Seq<char> {
        match self {
            Error::SourceFormat => "required dimension or variable is missing"@,
            Error::UnsupportedType => "storage type outside the decodable set"@,
            Error::Encoding => "byte sequence is not valid text"@,
            Error::DimensionMismatch => "declared shape does not match the data"@,
            Error::Sink => "persistence failure"@,
        }
    }
}

} // verus!
