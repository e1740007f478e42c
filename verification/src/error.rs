//! The failures that reading or editing a PNG file can report.
use vstd::prelude::*;

verus! {

/// Why an operation on a chunk type, a chunk or a whole file was refused.
#[derive(Debug, Clone, Copy, PartialEq, Eq, Structural)]
pub enum PngError {
    /// One of the four bytes of a chunk type is not an ASCII letter.
    InvalidTagBytes,
    /// The text given for a chunk type is not exactly four characters long.
    InvalidTagLength,
    /// The buffer ends before the signature, or before a chunk that its
    /// length field announces, is complete.
    TruncatedBuffer,
    /// The buffer does not start with the PNG signature.
    BadSignature,
    /// The CRC stored in a chunk differs from the one computed over its
    /// type and data.
    ChecksumMismatch,
    /// No chunk of the requested type is present.
    TagNotFound,
    /// The data of a chunk is not valid UTF-8.
    InvalidUtf8,
}

} // verus!
