use vstd::prelude::*;

verus! {

/// The ways in which an operation on chunks or on a PNG file can fail.
#[derive(Debug, Clone, Copy, PartialEq, Eq, Structural)]
pub enum Error {
    /// A chunk type that is not four ASCII letters.
    InvalidChunkType,
    /// A chunk whose declared length runs past the end of the input.
    UnexpectedEof,
    /// A chunk whose stored checksum differs from the one computed.
    CrcMismatch,
    /// Input that does not start with the PNG signature.
    BadSignature,
    /// No chunk of the requested type.
    ChunkNotFound,
    /// A payload that is not valid UTF-8 text.
    InvalidUtf8,
}

} // verus!
