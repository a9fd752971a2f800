//! The failures that the object store reports.

use vstd::prelude::*;

verus! {

/// Why an operation on the object store did not succeed.
#[derive(Debug, Clone, Copy, PartialEq, Eq, Structural)]
pub enum ObjectError {
    /// The store holds nothing at the path that the hash maps to.
    NotFound,
    /// The stored stream could not be inflated.
    DecodeError,
    /// The object could not be deflated.
    CompressionError,
    /// The header lacks its NUL or its space, or a numeric field is not a number.
    FormatError,
    /// The size that the header declares is not the length of the body.
    CorruptObject,
    /// The operation does not apply to an object of this kind.
    InvalidType,
    /// A tree body ends in the middle of a record.
    TruncatedEntry,
}

impl ObjectError {
    /// A stable numeric code, one per failure, none of them zero.
    pub open spec fn spec_code(self) -> u8 {
        match self {
            ObjectError::NotFound => 1,
            ObjectError::DecodeError => 2,
            ObjectError::CompressionError => 3,
            ObjectError::FormatError => 4,
            ObjectError::CorruptObject => 5,
            ObjectError::InvalidType => 6,
            ObjectError::TruncatedEntry => 7,
        }
    }

    /// The exit status that a command reports for this failure.
    #[verifier::when_used_as_spec(spec_code)]
    pub fn code(self) -> (c: u8)
        ensures
            c == self.spec_code(),
            c != 0,
    {
        match self {
            ObjectError::NotFound => 1,
            ObjectError::DecodeError => 2,
            ObjectError::CompressionError => 3,
            ObjectError::FormatError => 4,
            ObjectError::CorruptObject => 5,
            ObjectError::InvalidType => 6,
            ObjectError::TruncatedEntry => 7,
        }
    }
}

} // verus!
