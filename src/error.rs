use vstd::prelude::*;

verus! {

/// Why an operation on a chunk type, a chunk or a PNG file failed.
#[derive(Debug, Clone, Copy, PartialEq, Eq, Structural)]
pub enum PngError {
    /// A chunk type is not exactly four ASCII letters.
    InvalidChunkType,
    /// A chunk's declared length does not match the bytes that hold it.
    InvalidLength,
    /// A chunk's stored CRC differs from the one computed over its type and data.
    InvalidCrc,
    /// The input does not start with the PNG signature.
    InvalidSignature,
    /// A payload read as text is not valid UTF-8.
    InvalidUtf8,
    /// No chunk of the requested type is present.
    ChunkNotFound,
}

} // verus!
