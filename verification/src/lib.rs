//! In-memory manipulation of PNG files at the chunk level: a validated
//! four-byte chunk type, a CRC-32 checksum engine, a length-prefixed and
//! checksummed chunk record, and the whole-file container that sequences
//! chunks after the fixed PNG signature.

pub mod chunk;
pub mod chunk_type;
pub mod crc;
pub mod error;
pub mod png;
pub mod text;
