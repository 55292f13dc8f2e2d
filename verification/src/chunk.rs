//! The chunk record: a length-prefixed, type-tagged, checksummed binary
//! record.  On the wire a chunk is `length (4 bytes, big endian) ++ type (4
//! bytes) ++ data (length bytes) ++ crc (4 bytes, big endian)`, where the
//! checksum covers the type and data fields.  The length and checksum are
//! derived values: a chunk stores its type, its data and the checksum computed
//! from them, and the length is always read off the data.

use crate::chunk_type::ChunkType;
use crate::crc::crc;
use crate::crc::lemma_bit_flip_changes_byte;
use crate::crc::lemma_crc32_single_byte_sensitivity;
use crate::crc::spec_crc32;
use crate::error::PngError;
use crate::text::all_ascii;
use crate::text::ascii_chars;
use crate::text::spec_dec_chars;
use crate::text::u32_to_dec_string;
use crate::text::utf8_to_string;
use vstd::prelude::*;
use vstd::string::StringExecFns;
use vstd::slice::slice_subrange;
use vstd::slice::slice_to_vec;
use vstd::utf8::decode_utf8;
use vstd::utf8::valid_utf8;

verus! {

/// The big-endian bytes of a 32-bit value, most significant byte first.
pub open spec fn spec_u32_to_be(x: u32) -> Seq<u8> {
    seq![(x >> 24) as u8, (x >> 16) as u8, (x >> 8) as u8, x as u8]
}

/// The 32-bit value read from four big-endian bytes.
pub open spec fn spec_u32_from_be(s: Seq<u8>) -> u32
    recommends
        s.len() == 4,
{
    ((s[0] as u32) << 24) | ((s[1] as u32) << 16) | ((s[2] as u32) << 8) | (s[3] as u32)
}

/// Reading back the four big-endian bytes of a value gives the value.
pub proof fn lemma_be_roundtrip(x: u32)
    ensures
        spec_u32_from_be(spec_u32_to_be(x)) == x,
{
    assert((((((x >> 24) as u8) as u32) << 24) | ((((x >> 16) as u8) as u32) << 16) | ((((x
        >> 8) as u8) as u32) << 8) | ((x as u8) as u32)) == x) by (bit_vector);
}

/// Re-encoding the value read from four bytes gives the same four bytes.
pub proof fn lemma_be_bytes_roundtrip(s: Seq<u8>)
    requires
        s.len() == 4,
    ensures
        spec_u32_to_be(spec_u32_from_be(s)) == s,
{
    let b0 = s[0];
    let b1 = s[1];
    let b2 = s[2];
    let b3 = s[3];
    let x = spec_u32_from_be(s);
    assert((((((b0 as u32) << 24) | ((b1 as u32) << 16) | ((b2 as u32) << 8) | (b3 as u32)) >> 24)
        as u8) == b0) by (bit_vector);
    assert((((((b0 as u32) << 24) | ((b1 as u32) << 16) | ((b2 as u32) << 8) | (b3 as u32)) >> 16)
        as u8) == b1) by (bit_vector);
    assert((((((b0 as u32) << 24) | ((b1 as u32) << 16) | ((b2 as u32) << 8) | (b3 as u32)) >> 8)
        as u8) == b2) by (bit_vector);
    assert(((((b0 as u32) << 24) | ((b1 as u32) << 16) | ((b2 as u32) << 8) | (b3 as u32)) as u8)
        == b3) by (bit_vector);
    assert(spec_u32_to_be(x) =~= s);
}

/// The canonical wire form of a chunk with the given type and data.
pub open spec fn spec_chunk_serial(t: Seq<u8>, d: Seq<u8>) -> Seq<u8> {
    spec_u32_to_be(d.len() as u32) + t + d + spec_u32_to_be(spec_crc32(t + d))
}

/// The type field of a raw chunk record.
pub open spec fn spec_parse_type(raw: Seq<u8>) -> Seq<u8>
    recommends
        raw.len() >= 12,
{
    raw.subrange(4, 8)
}

/// The data field of a raw chunk record: everything between the type field and
/// the trailing checksum.  The leading length field is not consulted.
pub open spec fn spec_parse_data(raw: Seq<u8>) -> Seq<u8>
    recommends
        raw.len() >= 12,
{
    raw.subrange(8, raw.len() - 4)
}

/// True when the trailing checksum field of a raw chunk record matches the
/// checksum recomputed over its type and data fields.
pub open spec fn spec_parse_crc_matches(raw: Seq<u8>) -> bool
    recommends
        raw.len() >= 12,
{
    spec_u32_from_be(raw.subrange(raw.len() - 4, raw.len() as int)) == spec_crc32(
        spec_parse_type(raw) + spec_parse_data(raw),
    )
}

/// A chunk record: its type, its data, and the checksum computed over both.
#[derive(Debug, Clone, PartialEq, Eq)]
pub struct Chunk {
    ctype: ChunkType,
    data: Vec<u8>,
    crc: u32,
}

impl Chunk {
    /// The four bytes of the chunk's type.
    pub closed spec fn spec_type(&self) -> Seq<u8> {
        self.ctype@
    }

    /// The bytes of the chunk's data payload.
    pub closed spec fn spec_data(&self) -> Seq<u8> {
        self.data@
    }

    /// The stored checksum field.
    pub closed spec fn spec_crc_field(&self) -> u32 {
        self.crc
    }

    /// The stored checksum matches the type and data, the type is four bytes,
    /// and the data fits the 32-bit length field.
    pub open spec fn wf(&self) -> bool {
        &&& self.spec_crc_field() == spec_crc32(self.spec_type() + self.spec_data())
        &&& self.spec_type().len() == 4
        &&& self.spec_data().len() <= 0xffff_ffff
    }

    /// The 32-bit value read from four big-endian bytes.
    pub fn to_u32(v: [u8; 4]) -> (r: u32)
        ensures
            r == spec_u32_from_be(v@),
    {
        ((v[0] as u32) << 24) | ((v[1] as u32) << 16) | ((v[2] as u32) << 8) | (v[3] as u32)
    }

    /// The four big-endian bytes of a value that fits in 32 bits.
    pub fn to_bytes(v: usize) -> (r: [u8; 4])
        requires
            v <= 0xffff_ffff,
        ensures
            r@ == spec_u32_to_be(v as u32),
    {
        let x = v as u32;
        let r: [u8; 4] = [(x >> 24) as u8, (x >> 16) as u8, (x >> 8) as u8, x as u8];
        proof {
            assert(r@ =~= spec_u32_to_be(x));
        }
        r
    }

    /// Builds a chunk from a type and a data payload, computing the checksum
    /// over the type bytes followed by the data bytes.
    pub fn new(ctype: ChunkType, data: Vec<u8>) -> (r: Self)
        requires
            data@.len() <= 0xffff_ffff,
        ensures
            r.wf(),
            r.spec_type() == ctype@,
            r.spec_data() == data@,
    {
        let mut buf: Vec<u8> = Vec::new();
        let tb = ctype.bytes();
        buf.push(tb[0]);
        buf.push(tb[1]);
        buf.push(tb[2]);
        buf.push(tb[3]);
        buf.extend_from_slice(data.as_slice());
        proof {
            assert(buf@ =~= ctype@ + data@);
        }
        let c = crc(buf.as_slice());
        Chunk { ctype, data, crc: c }
    }

    /// Parses a raw chunk record.  A buffer under twelve bytes is malformed;
    /// otherwise the type field is read at offset four, everything between the
    /// type field and the last four bytes is the data, and the checksum is
    /// recomputed and held against the trailing field.  The leading length
    /// field is never consulted: the data length is re-derived from the buffer.
    pub fn parse(raw: &[u8]) -> (r: Result<Chunk, PngError>)
        requires
            raw@.len() <= 0xffff_ffff + 12,
        ensures
            raw@.len() < 12 ==> r == Err::<Chunk, PngError>(PngError::Malformed),
            raw@.len() >= 12 && !spec_parse_crc_matches(raw@) ==> r == Err::<Chunk, PngError>(
                PngError::CrcMismatch,
            ),
            raw@.len() >= 12 && spec_parse_crc_matches(raw@) ==> (r matches Ok(c) && c.wf()
                && c.spec_type() == spec_parse_type(raw@) && c.spec_data() == spec_parse_data(
                raw@,
            )),
    {
        if raw.len() < 12 {
            return Err(PngError::Malformed);
        }
        let n = raw.len();
        let type_slice = slice_subrange(raw, 4, 8);
        let ctype = ChunkType::new(type_slice);
        let data_slice = slice_subrange(raw, 8, n - 4);
        let data: Vec<u8> = slice_to_vec(data_slice);
        let crc_field = Self::to_u32([raw[n - 4], raw[n - 3], raw[n - 2], raw[n - 1]]);
        proof {
            assert(seq![raw@[n - 4], raw@[n - 3], raw@[n - 2], raw@[n - 1]] =~= raw@.subrange(
                n - 4,
                n as int,
            ));
        }
        let mut buf: Vec<u8> = Vec::new();
        buf.push(ctype.0[0]);
        buf.push(ctype.0[1]);
        buf.push(ctype.0[2]);
        buf.push(ctype.0[3]);
        buf.extend_from_slice(data.as_slice());
        proof {
            assert(buf@ =~= spec_parse_type(raw@) + spec_parse_data(raw@));
        }
        let computed = crc(buf.as_slice());
        if crc_field != computed {
            return Err(PngError::CrcMismatch);
        }
        Ok(Chunk { ctype, data, crc: computed })
    }

    /// The length of the data payload, as the 32-bit length field carries it.
    pub fn length(&self) -> (r: u32)
        requires
            self.wf(),
        ensures
            r as nat == self.spec_data().len(),
    {
        self.data.len() as u32
    }

    /// The stored checksum; on a well-formed chunk it is the CRC-32 of the
    /// type bytes followed by the data bytes.
    pub fn crc(&self) -> (r: u32)
        ensures
            r == self.spec_crc_field(),
            self.wf() ==> r == spec_crc32(self.spec_type() + self.spec_data()),
    {
        self.crc
    }

    /// The chunk's type.
    pub fn chunk_type(&self) -> (r: ChunkType)
        ensures
            r@ == self.spec_type(),
    {
        self.ctype
    }

    /// The type bytes read as text, when they are valid UTF-8.
    pub fn type_as_string(&self) -> (r: Option<String>)
        ensures
            (r is Some) <==> valid_utf8(self.spec_type()),
            r matches Some(s) ==> s@ == decode_utf8(self.spec_type()),
    {
        let mut v: Vec<u8> = Vec::new();
        v.push(self.ctype.0[0]);
        v.push(self.ctype.0[1]);
        v.push(self.ctype.0[2]);
        v.push(self.ctype.0[3]);
        proof {
            assert(v@ =~= self.spec_type());
        }
        utf8_to_string(&v)
    }

    /// The data payload read as text, when it is valid UTF-8.
    pub fn data_as_string(&self) -> (r: Option<String>)
        ensures
            (r is Some) <==> valid_utf8(self.spec_data()),
            r matches Some(s) ==> s@ == decode_utf8(self.spec_data()),
    {
        utf8_to_string(&self.data)
    }

    /// The chunk's wire form: length, type, data and checksum concatenated.
    pub fn as_bytes(self) -> (r: Vec<u8>)
        requires
            self.wf(),
        ensures
            r@ == spec_chunk_serial(self.spec_type(), self.spec_data()),
    {
        let mut out: Vec<u8> = Vec::new();
        Self::push_serial(&self, &mut out);
        proof {
            assert(out@ =~= spec_chunk_serial(self.spec_type(), self.spec_data()));
        }
        out
    }

    /// Appends the chunk's wire form to a byte buffer.
    pub fn push_serial(c: &Chunk, out: &mut Vec<u8>)
        requires
            c.wf(),
        ensures
            final(out)@ == old(out)@ + spec_chunk_serial(c.spec_type(), c.spec_data()),
    {
        let len_bytes = Self::to_bytes(c.data.len());
        out.push(len_bytes[0]);
        out.push(len_bytes[1]);
        out.push(len_bytes[2]);
        out.push(len_bytes[3]);
        out.push(c.ctype.0[0]);
        out.push(c.ctype.0[1]);
        out.push(c.ctype.0[2]);
        out.push(c.ctype.0[3]);
        out.extend_from_slice(c.data.as_slice());
        let crc_bytes = Self::to_bytes(c.crc as usize);
        out.push(crc_bytes[0]);
        out.push(crc_bytes[1]);
        out.push(crc_bytes[2]);
        out.push(crc_bytes[3]);
        proof {
            assert(out@ =~= old(out)@ + spec_chunk_serial(c.spec_type(), c.spec_data()));
        }
    }
}

/// The human-readable rendering of a chunk: its length, checksum, type text
/// and data text, the last empty when the data is not UTF-8 text.
pub open spec fn spec_chunk_display(t: Seq<u8>, d: Seq<u8>) -> Seq<char> {
    "\u{1b}[93m- length "@ + spec_dec_chars(d.len()) + "\n- crc    "@ + spec_dec_chars(
        spec_crc32(t + d) as nat,
    ) + "\n- type   "@ + ascii_chars(t) + "\n- data   "@ + (if valid_utf8(d) {
        decode_utf8(d)
    } else {
        Seq::<char>::empty()
    }) + "\u{1b}[0m"@
}

impl Chunk {
    /// Renders the chunk for human inspection: length, checksum, type text and
    /// data text, the data left empty when it is not UTF-8.  Presentation
    /// only; the wire form is `as_bytes`.
    pub fn to_display_string(&self) -> (r: String)
        requires
            self.wf(),
            all_ascii(self.spec_type()),
        ensures
            r@ == spec_chunk_display(self.spec_type(), self.spec_data()),
    {
        let mut s = String::new();
        s.append("\u{1b}[93m- length ");
        let len_text = u32_to_dec_string(self.length());
        s.append(len_text.as_str());
        s.append("\n- crc    ");
        let crc_text = u32_to_dec_string(self.crc());
        s.append(crc_text.as_str());
        s.append("\n- type   ");
        let type_text = self.chunk_type().to_display_string();
        s.append(type_text.as_str());
        s.append("\n- data   ");
        match self.data_as_string() {
            Some(data_text) => s.append(data_text.as_str()),
            None => (),
        }
        s.append("\u{1b}[0m");
        proof {
            assert(s@ =~= spec_chunk_display(self.spec_type(), self.spec_data()));
        }
        s
    }
}

/// A chunk's wire form parses back to the chunk: the record is at least twelve
/// bytes, its type and data fields read back exactly, and its trailing
/// checksum matches.
pub proof fn lemma_chunk_round_trip(t: Seq<u8>, d: Seq<u8>)
    requires
        t.len() == 4,
        d.len() <= 0xffff_ffff,
    ensures
        spec_chunk_serial(t, d).len() == d.len() + 12,
        spec_parse_type(spec_chunk_serial(t, d)) == t,
        spec_parse_data(spec_chunk_serial(t, d)) == d,
        spec_parse_crc_matches(spec_chunk_serial(t, d)),
{
    let s = spec_chunk_serial(t, d);
    assert(spec_parse_type(s) =~= t);
    assert(spec_parse_data(s) =~= d);
    assert(s.subrange(s.len() - 4, s.len() as int) =~= spec_u32_to_be(spec_crc32(t + d)));
    lemma_be_roundtrip(spec_crc32(t + d));
}

/// Corrupting any single byte of a chunk's wire form anywhere outside the
/// leading length field -- in particular, flipping any single bit there --
/// leaves a record whose trailing checksum no longer matches, so parsing it
/// fails with a checksum mismatch.
pub proof fn lemma_chunk_corruption_detected(t: Seq<u8>, d: Seq<u8>, s2: Seq<u8>, p: int)
    requires
        t.len() == 4,
        d.len() <= 0xffff_ffff,
        s2.len() == spec_chunk_serial(t, d).len(),
        4 <= p < s2.len(),
        s2[p] != spec_chunk_serial(t, d)[p],
        forall|i: int| 0 <= i < s2.len() && i != p ==> s2[i] == spec_chunk_serial(t, d)[i],
    ensures
        s2.len() >= 12,
        !spec_parse_crc_matches(s2),
{
    let s1 = spec_chunk_serial(t, d);
    let n = s1.len() as int;
    lemma_chunk_round_trip(t, d);
    if p < n - 4 {
        // The corrupted byte sits in the type or data field: the recomputed
        // checksum changes while the stored field does not.
        let m1 = spec_parse_type(s1) + spec_parse_data(s1);
        let m2 = spec_parse_type(s2) + spec_parse_data(s2);
        assert(m1 =~= s1.subrange(4, n - 4));
        assert(m2 =~= s2.subrange(4, n - 4));
        assert(m1 == t + d);
        lemma_crc32_single_byte_sensitivity(m1, m2, p - 4);
        assert(s2.subrange(n - 4, n) =~= s1.subrange(n - 4, n));
    } else {
        // The corrupted byte sits in the checksum field: the recomputed
        // checksum is unchanged while the stored field differs.
        assert(spec_parse_type(s2) =~= t);
        assert(spec_parse_data(s2) =~= d);
        let f1 = s1.subrange(n - 4, n);
        let f2 = s2.subrange(n - 4, n);
        assert(f1 =~= spec_u32_to_be(spec_crc32(t + d)));
        assert(f1[p - (n - 4)] != f2[p - (n - 4)]);
        if spec_u32_from_be(f2) == spec_crc32(t + d) {
            lemma_be_bytes_roundtrip(f2);
            lemma_be_roundtrip(spec_crc32(t + d));
            assert(f2 == spec_u32_to_be(spec_u32_from_be(f2)));
            assert(f1 == f2);
        }
    }
}

/// Flipping any single bit of a chunk's wire form, anywhere outside the
/// leading length field, leaves a record that fails parsing with a checksum
/// mismatch.  (The length field itself is never consulted when a lone record
/// is parsed, so a flip there goes unnoticed by design.)
pub proof fn lemma_chunk_bit_flip_detected(t: Seq<u8>, d: Seq<u8>, p: int, j: u8)
    requires
        t.len() == 4,
        d.len() <= 0xffff_ffff,
        4 <= p < spec_chunk_serial(t, d).len(),
        j < 8,
    ensures
        !spec_parse_crc_matches(
            spec_chunk_serial(t, d).update(p, spec_chunk_serial(t, d)[p] ^ (1u8 << j)),
        ),
{
    let s1 = spec_chunk_serial(t, d);
    let s2 = s1.update(p, s1[p] ^ (1u8 << j));
    lemma_bit_flip_changes_byte(s1[p], j);
    lemma_chunk_corruption_detected(t, d, s2, p);
}

} // verus!
