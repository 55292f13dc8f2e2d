//! The four-byte chunk type tag.  Each byte must be an ASCII letter when a
//! type is constructed through the validated constructors, and the case of
//! each byte carries one property bit: upper case in byte 0 marks a critical
//! chunk, in byte 1 a public one, in byte 2 the reserved bit in its valid
//! state, and in byte 3 a chunk that is not safe to copy.

use crate::error::PngError;
use crate::text::all_ascii;
use crate::text::ascii_chars;
use crate::text::lemma_ascii_bytes_decode;
use crate::text::utf8_to_string;
use vstd::prelude::*;
use vstd::string::StringSliceAdditionalSpecFns;
use vstd::utf8::encode_utf8;

verus! {

/// True of an ASCII uppercase letter.
pub open spec fn spec_is_upper(b: u8) -> bool {
    0x41 <= b <= 0x5a
}

/// True of an ASCII lowercase letter.
pub open spec fn spec_is_lower(b: u8) -> bool {
    0x61 <= b <= 0x7a
}

/// True of an ASCII letter.
pub open spec fn spec_is_alphabetic(b: u8) -> bool {
    spec_is_upper(b) || spec_is_lower(b)
}

/// A four-byte chunk type tag.
#[derive(Debug, Clone, Copy, PartialEq, Eq)]
pub struct ChunkType(pub [u8; 4]);

impl View for ChunkType {
    type V = Seq<u8>;

    open spec fn view(&self) -> Seq<u8> {
        self.0@
    }
}

/// True when the given byte is an ASCII letter.
pub fn is_ascii_letter(b: u8) -> (r: bool)
    ensures
        r == spec_is_alphabetic(b),
{
    (0x41 <= b && b <= 0x5a) || (0x61 <= b && b <= 0x7a)
}

impl ChunkType {
    /// Every byte of the tag is an ASCII letter.
    pub open spec fn spec_alphabetic(&self) -> bool {
        forall|i: int| 0 <= i < 4 ==> spec_is_alphabetic(self@[i])
    }

    pub open spec fn spec_is_critical(&self) -> bool {
        spec_is_upper(self@[0])
    }

    pub open spec fn spec_is_public(&self) -> bool {
        spec_is_upper(self@[1])
    }

    pub open spec fn spec_is_reserved_bit_valid(&self) -> bool {
        spec_is_upper(self@[2])
    }

    pub open spec fn spec_is_safe_to_copy(&self) -> bool {
        !spec_is_upper(self@[3])
    }

    pub open spec fn spec_is_valid(&self) -> bool {
        self.spec_is_reserved_bit_valid() && self.spec_is_critical()
    }

    /// Wraps four raw bytes without validating them.
    pub fn new(val: &[u8]) -> (r: Self)
        requires
            val@.len() == 4,
        ensures
            r@ == val@,
    {
        let r = ChunkType([val[0], val[1], val[2], val[3]]);
        proof {
            assert(r@ =~= val@);
        }
        r
    }

    /// The exact stored bytes.
    pub fn bytes(self) -> (r: [u8; 4])
        ensures
            r@ == self@,
    {
        self.0
    }

    /// Byte 0 in upper case marks a chunk the decoder must understand.
    pub fn is_critical(self) -> (r: bool)
        ensures
            r == self.spec_is_critical(),
    {
        let b = self.0[0];
        0x41 <= b && b <= 0x5a
    }

    /// Byte 1 in upper case marks a registered, standardized type.
    pub fn is_public(self) -> (r: bool)
        ensures
            r == self.spec_is_public(),
    {
        let b = self.0[1];
        0x41 <= b && b <= 0x5a
    }

    /// Byte 2 must be upper case for the reserved bit to be in its valid state.
    pub fn is_reserved_bit_valid(self) -> (r: bool)
        ensures
            r == self.spec_is_reserved_bit_valid(),
    {
        let b = self.0[2];
        0x41 <= b && b <= 0x5a
    }

    /// Byte 3 in lower case marks a chunk that editors may copy unmodified.
    pub fn is_safe_to_copy(self) -> (r: bool)
        ensures
            r == self.spec_is_safe_to_copy(),
    {
        let b = self.0[3];
        !(0x41 <= b && b <= 0x5a)
    }

    /// A type is valid when it is critical and its reserved bit is valid.
    pub fn is_valid(self) -> (r: bool)
        ensures
            r == self.spec_is_valid(),
    {
        self.is_reserved_bit_valid() && self.is_critical()
    }

    /// Validated construction from four raw bytes: fails unless every byte is
    /// an ASCII letter.
    pub fn construct(bytes: [u8; 4]) -> (r: Result<ChunkType, PngError>)
        ensures
            (r is Ok) <==> (forall|i: int| 0 <= i < 4 ==> spec_is_alphabetic(bytes@[i])),
            r matches Ok(ct) ==> ct@ == bytes@,
            r matches Err(e) ==> e == PngError::InvalidChunkType,
    {
        if is_ascii_letter(bytes[0]) && is_ascii_letter(bytes[1]) && is_ascii_letter(bytes[2])
            && is_ascii_letter(bytes[3]) {
            Ok(ChunkType(bytes))
        } else {
            Err(PngError::InvalidChunkType)
        }
    }

    /// Validated construction from text: fails unless the text is exactly four
    /// bytes long and every byte is an ASCII letter.
    pub fn construct_from_text(s: &str) -> (r: Result<ChunkType, PngError>)
        ensures
            (r is Ok) <==> (encode_utf8(s@).len() == 4 && (forall|i: int|
                0 <= i < 4 ==> spec_is_alphabetic(encode_utf8(s@)[i]))),
            r matches Ok(ct) ==> ct@ == encode_utf8(s@),
            r matches Err(e) ==> e == PngError::InvalidChunkType,
    {
        let bytes = s.as_bytes();
        if bytes.len() != 4 {
            return Err(PngError::InvalidChunkType);
        }
        let arr: [u8; 4] = [bytes[0], bytes[1], bytes[2], bytes[3]];
        proof {
            assert(arr@ =~= encode_utf8(s@));
        }
        Self::construct(arr)
    }

    /// The four bytes read as text.  Total on any type whose bytes are ASCII,
    /// as every validated type's are.
    pub fn to_display_string(&self) -> (r: String)
        requires
            all_ascii(self@),
        ensures
            r@ == ascii_chars(self@),
    {
        let mut v: Vec<u8> = Vec::new();
        v.push(self.0[0]);
        v.push(self.0[1]);
        v.push(self.0[2]);
        v.push(self.0[3]);
        proof {
            assert(v@ =~= self@);
            lemma_ascii_bytes_decode(v@);
        }
        match utf8_to_string(&v) {
            Some(s) => s,
            None => {
                proof {
                    assert(false);
                }
                String::new()
            },
        }
    }
}

} // verus!
