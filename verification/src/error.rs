//! The ways in which decoding a block stream can fail.

use vstd::prelude::*;

verus! {

/// Why a block stream could not be decoded. Every kind ends the decoding of
/// the stream: nothing of a corrupt block is kept.
#[derive(Clone, Copy, Debug, PartialEq, Eq, Structural)]
pub enum Error {
    /// The stream ended in the middle of a frame.
    StreamTruncated,
    /// A blob is packed with a method other than store or zlib.
    UnsupportedCompression,
    /// A block header names a kind of block other than the two known ones.
    UnrecognizedBlockType,
    /// A key, value or role refers to a string that the block's table lacks.
    StringTableIndexOutOfRange,
    /// An entry of a block's string table is not UTF-8.
    InvalidUtf8InStringTable,
    /// A relation member carries a type code other than node, way, relation.
    UnrecognizedMemberType,
    /// A zlib payload did not inflate to exactly the declared size.
    DecompressionSizeMismatch,
    /// The packed tags of a dense group end on a key that has no value.
    DanglingTagKey,
}

impl Error {
    /// A short sentence for the error, for messages and logs.
    pub fn message(&self) -> (s: String)
        ensures
            s@ == self.spec_message()@,
    {
        match self {
            Error::StreamTruncated => String::from_str("stream ends in the middle of a frame"),
            Error::UnsupportedCompression => String::from_str("unsupported blob compression"),
            Error::UnrecognizedBlockType => String::from_str("unrecognized file block"),
            Error::StringTableIndexOutOfRange => String::from_str(
                "string table index out of range",
            ),
            Error::InvalidUtf8InStringTable => String::from_str(
                "string table entry is not UTF-8",
            ),
            Error::UnrecognizedMemberType => String::from_str("unrecognized member type"),
            Error::DecompressionSizeMismatch => String::from_str(
                "blob did not inflate to its declared size",
            ),
            Error::DanglingTagKey => String::from_str("dense tag key without a value"),
        }
    }

    /// The text of [`Error::message`].
    pub open spec fn spec_message(&self) -> &'static str {
        match self {
            Error::StreamTruncated => "stream ends in the middle of a frame",
            Error::UnsupportedCompression => "unsupported blob compression",
            Error::UnrecognizedBlockType => "unrecognized file block",
            Error::StringTableIndexOutOfRange => "string table index out of range",
            Error::InvalidUtf8InStringTable => "string table entry is not UTF-8",
            Error::UnrecognizedMemberType => "unrecognized member type",
            Error::DecompressionSizeMismatch => "blob did not inflate to its declared size",
            Error::DanglingTagKey => "dense tag key without a value",
        }
    }
}

} // verus!
