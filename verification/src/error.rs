use vstd::prelude::*;

verus! {

/// Every way a byte buffer can be rejected while it is being turned into a
/// chunk type, a chunk, or a whole container.
#[derive(Debug, Clone, Copy, PartialEq, Eq, Structural)]
pub enum PngError {
    /// A four-byte chunk type holds a byte that is not an ASCII letter.
    InvalidChunkType,
    /// A chunk's trailing checksum field does not match the CRC-32 recomputed
    /// over its type and data.
    CrcMismatch,
    /// A buffer does not begin with the fixed eight-byte PNG signature.
    BadSignature,
    /// A buffer is too short to hold a minimal chunk record, or runs out of
    /// bytes in the middle of a record.
    Malformed,
}

} // verus!
