//! The whole-file container: an ordered list of chunks that, on the wire,
//! follows the fixed eight-byte PNG signature.  Parsing walks the buffer one
//! record at a time, using each record's length field to find its end;
//! serialization emits the signature and every chunk's wire form in list
//! order.  Lookup and removal by type text find the first matching chunk.

use crate::chunk::Chunk;
use crate::chunk::spec_chunk_serial;
use crate::chunk::spec_parse_crc_matches;
use crate::chunk::spec_parse_data;
use crate::chunk::spec_parse_type;
use crate::chunk::spec_u32_from_be;
use crate::chunk::spec_u32_to_be;
use crate::chunk::lemma_be_bytes_roundtrip;
use crate::error::PngError;
use vstd::prelude::*;
use vstd::slice::slice_subrange;
use vstd::string::StringSliceAdditionalSpecFns;
use vstd::utf8::encode_utf8;

verus! {

/// The type and data fields of a sequence of chunk records.
pub type ChunkModels = Seq<(Seq<u8>, Seq<u8>)>;

/// The fixed eight-byte signature that begins every container.
pub open spec fn spec_signature() -> Seq<u8> {
    seq![0x89u8, 0x50u8, 0x4eu8, 0x47u8, 0x0du8, 0x0au8, 0x1au8, 0x0au8]
}

/// True when the buffer begins with the eight signature bytes.
pub open spec fn spec_has_signature(raw: Seq<u8>) -> bool {
    raw.len() >= 8 && raw.subrange(0, 8) == spec_signature()
}

/// The type and data fields of each chunk record in `raw`, in order, or the
/// error on which walking the records stops.  Each record's extent is fixed by
/// its leading length field; a record shorter than announced, or a trailing
/// fragment under twelve bytes, is malformed.
pub open spec fn spec_parse_chunks(raw: Seq<u8>) -> Result<ChunkModels, PngError>
    decreases raw.len(),
{
    if raw.len() == 0 {
        Ok(seq![])
    } else if raw.len() < 12 {
        Err(PngError::Malformed)
    } else {
        let l = spec_u32_from_be(raw.subrange(0, 4)) as int;
        if raw.len() < l + 12 {
            Err(PngError::Malformed)
        } else {
            let rec = raw.subrange(0, l + 12);
            if !spec_parse_crc_matches(rec) {
                Err(PngError::CrcMismatch)
            } else {
                match spec_parse_chunks(raw.skip(l + 12)) {
                    Ok(rest) => Ok(seq![(spec_parse_type(rec), spec_parse_data(rec))] + rest),
                    Err(e) => Err(e),
                }
            }
        }
    }
}

/// What parsing a whole container buffer yields: a bad signature, or the
/// outcome of walking the records after the signature.
pub open spec fn spec_parse_png(raw: Seq<u8>) -> Result<ChunkModels, PngError> {
    if !spec_has_signature(raw) {
        Err(PngError::BadSignature)
    } else {
        spec_parse_chunks(raw.skip(8))
    }
}

/// The type and data of each chunk in a list.
pub open spec fn chunk_models(chunks: Seq<Chunk>) -> ChunkModels {
    chunks.map(|i: int, c: Chunk| (c.spec_type(), c.spec_data()))
}

/// The wire forms of a sequence of chunk models, concatenated in order.
pub open spec fn spec_serial_models(models: ChunkModels) -> Seq<u8>
    decreases models.len(),
{
    if models.len() == 0 {
        seq![]
    } else {
        spec_chunk_serial(models[0].0, models[0].1) + spec_serial_models(models.drop_first())
    }
}

/// Serializing one more model appends its wire form.
proof fn lemma_serial_models_snoc(models: ChunkModels, x: (Seq<u8>, Seq<u8>))
    ensures
        spec_serial_models(models.push(x)) == spec_serial_models(models) + spec_chunk_serial(
            x.0,
            x.1,
        ),
    decreases models.len(),
{
    let p = models.push(x);
    assert(p[0] == if models.len() == 0 {
        x
    } else {
        models[0]
    });
    if models.len() == 0 {
        assert(p.drop_first() =~= Seq::<(Seq<u8>, Seq<u8>)>::empty());
        assert(spec_serial_models(p) == spec_chunk_serial(x.0, x.1) + spec_serial_models(
            Seq::<(Seq<u8>, Seq<u8>)>::empty(),
        ));
        assert(spec_serial_models(p) =~= spec_serial_models(models) + spec_chunk_serial(x.0, x.1));
    } else {
        assert(p.drop_first() =~= models.drop_first().push(x));
        lemma_serial_models_snoc(models.drop_first(), x);
        assert(spec_serial_models(p) == spec_chunk_serial(models[0].0, models[0].1) + (
        spec_serial_models(models.drop_first()) + spec_chunk_serial(x.0, x.1)));
        assert(spec_serial_models(p) =~= spec_serial_models(models) + spec_chunk_serial(x.0, x.1));
    }
}

/// True when the chunk's type bytes spell the given text.
pub open spec fn spec_type_matches(c: Chunk, text: Seq<char>) -> bool {
    c.spec_type() == encode_utf8(text)
}

/// The index of the first chunk in the list whose type spells the given text.
pub open spec fn spec_find(chunks: Seq<Chunk>, text: Seq<char>) -> Option<int>
    decreases chunks.len(),
{
    if chunks.len() == 0 {
        None
    } else if spec_type_matches(chunks[0], text) {
        Some(0)
    } else {
        match spec_find(chunks.drop_first(), text) {
            Some(i) => Some(i + 1),
            None => None,
        }
    }
}

/// `spec_find` returns the first matching index: the chunk there matches, no
/// chunk before it does, and when it returns nothing, no chunk matches at all.
pub proof fn lemma_find_first_match(chunks: Seq<Chunk>, text: Seq<char>)
    ensures
        spec_find(chunks, text) matches Some(i) ==> (0 <= i < chunks.len() && spec_type_matches(
            chunks[i],
            text,
        ) && (forall|j: int| 0 <= j < i ==> !spec_type_matches(chunks[j], text))),
        (spec_find(chunks, text) is None) ==> (forall|j: int|
            0 <= j < chunks.len() ==> !spec_type_matches(chunks[j], text)),
    decreases chunks.len(),
{
    if chunks.len() > 0 && !spec_type_matches(chunks[0], text) {
        let rest = chunks.drop_first();
        lemma_find_first_match(rest, text);
        if spec_find(chunks, text) is Some {
            let i = spec_find(chunks, text)->Some_0;
            assert(spec_find(rest, text) == Some(i - 1));
            assert(rest[i - 1] == chunks[i]);
            assert forall|j: int| 0 <= j < i implies !spec_type_matches(chunks[j], text) by {
                if j > 0 {
                    assert(chunks[j] == rest[j - 1]);
                }
            }
        } else {
            assert forall|j: int| 0 <= j < chunks.len() implies !spec_type_matches(
                chunks[j],
                text,
            ) by {
                if j > 0 {
                    assert(chunks[j] == rest[j - 1]);
                }
            }
        }
    }
}

/// The first match of a list really is found: if the chunk at `j` matches and
/// none before it does, `spec_find` returns `j`.
pub proof fn lemma_find_at(chunks: Seq<Chunk>, text: Seq<char>, j: int)
    requires
        0 <= j < chunks.len(),
        spec_type_matches(chunks[j], text),
        forall|k: int| 0 <= k < j ==> !spec_type_matches(chunks[k], text),
    ensures
        spec_find(chunks, text) == Some(j),
    decreases chunks.len(),
{
    if j > 0 {
        lemma_find_at(chunks.drop_first(), text, j - 1);
    }
}

/// The container: an ordered list of chunks.
#[derive(Debug, PartialEq, Eq)]
pub struct Png {
    chunks: Vec<Chunk>,
}

impl View for Png {
    type V = Seq<Chunk>;

    closed spec fn view(&self) -> Seq<Chunk> {
        self.chunks@
    }
}

impl Png {
    /// Every chunk in the container is well formed.
    pub open spec fn wf(&self) -> bool {
        forall|i: int| 0 <= i < self@.len() ==> (#[trigger] self@[i]).wf()
    }

    /// The container's wire form: the signature, then every chunk in order.
    pub open spec fn spec_serial(&self) -> Seq<u8> {
        spec_signature() + spec_serial_models(chunk_models(self@))
    }

    /// The fixed eight signature bytes.
    pub fn signature() -> (r: [u8; 8])
        ensures
            r@ == spec_signature(),
    {
        let r: [u8; 8] = [0x89u8, 0x50u8, 0x4eu8, 0x47u8, 0x0du8, 0x0au8, 0x1au8, 0x0au8];
        proof {
            assert(r@ =~= spec_signature());
        }
        r
    }

    /// Parses a whole container buffer: the signature must open the buffer,
    /// and the rest must divide exactly into valid chunk records.
    pub fn parse(raw: &[u8]) -> (r: Result<Png, PngError>)
        ensures
            spec_parse_png(raw@) matches Ok(models) ==> (r matches Ok(png) && png.wf()
                && chunk_models(png@) == models),
            spec_parse_png(raw@) matches Err(e) ==> r == Err::<Png, PngError>(e),
    {
        let sig = Self::signature();
        if raw.len() < 8 {
            return Err(PngError::BadSignature);
        }
        let mut k: usize = 0;
        while k < 8
            invariant
                k <= 8,
                raw@.len() >= 8,
                sig@ == spec_signature(),
                forall|j: int| 0 <= j < k ==> raw@[j] == spec_signature()[j],
            decreases 8 - k,
        {
            if raw[k] != sig[k] {
                proof {
                    assert(raw@.subrange(0, 8)[k as int] != spec_signature()[k as int]);
                }
                return Err(PngError::BadSignature);
            }
            k = k + 1;
        }
        proof {
            assert(raw@.subrange(0, 8) =~= spec_signature());
        }
        let mut chunks: Vec<Chunk> = Vec::new();
        let mut i: usize = 8;
        while i < raw.len()
            invariant
                8 <= i <= raw@.len(),
                spec_has_signature(raw@),
                forall|j: int| 0 <= j < chunks@.len() ==> (#[trigger] chunks@[j]).wf(),
                spec_parse_chunks(raw@.skip(i as int)) matches Ok(rest) ==> spec_parse_chunks(
                    raw@.skip(8),
                ) == Ok::<ChunkModels, PngError>(chunk_models(chunks@) + rest),
                spec_parse_chunks(raw@.skip(i as int)) matches Err(e) ==> spec_parse_chunks(
                    raw@.skip(8),
                ) == Err::<ChunkModels, PngError>(e),
            decreases raw@.len() - i,
        {
            let ghost tail = raw@.skip(i as int);
            let rem = raw.len() - i;
            if rem < 12 {
                return Err(PngError::Malformed);
            }
            let l = Chunk::to_u32([raw[i], raw[i + 1], raw[i + 2], raw[i + 3]]);
            proof {
                assert(seq![raw@[i as int], raw@[i as int + 1], raw@[i as int + 2], raw@[i as int
                    + 3]] =~= tail.subrange(0, 4));
            }
            if (rem as u64) < (l as u64) + 12 {
                return Err(PngError::Malformed);
            }
            let total = (l as usize) + 12;
            let rec = slice_subrange(raw, i, i + total);
            proof {
                assert(rec@ =~= tail.subrange(0, l as int + 12));
                assert(tail.skip(l as int + 12) =~= raw@.skip(i as int + total as int));
            }
            match Chunk::parse(rec) {
                Ok(c) => {
                    proof {
                        assert(chunk_models(chunks@.push(c)) =~= chunk_models(chunks@).push(
                            (c.spec_type(), c.spec_data()),
                        ));
                        if spec_parse_chunks(raw@.skip(i as int + total as int)) is Ok {
                            let rest = spec_parse_chunks(
                                raw@.skip(i as int + total as int),
                            )->Ok_0;
                            assert(chunk_models(chunks@) + (seq![
                                (c.spec_type(), c.spec_data()),
                            ] + rest) =~= chunk_models(chunks@.push(c)) + rest);
                        }
                    }
                    chunks.push(c);
                    i = i + total;
                },
                Err(e) => {
                    return Err(e);
                },
            }
        }
        proof {
            assert(raw@.skip(i as int) =~= Seq::<u8>::empty());
            assert(chunk_models(chunks@) + Seq::<(Seq<u8>, Seq<u8>)>::empty() =~= chunk_models(
                chunks@,
            ));
        }
        Ok(Png { chunks })
    }

    /// Appends a chunk at the end of the list.
    pub fn append_chunk(&mut self, chunk: Chunk)
        ensures
            final(self)@ == old(self)@.push(chunk),
    {
        self.chunks.push(chunk);
    }

    /// The ordered chunk list.
    pub fn chunks(&self) -> (r: &Vec<Chunk>)
        ensures
            r@ == self@,
    {
        &self.chunks
    }

    /// A reference to the first chunk whose type spells the given text, if any
    /// chunk's does.
    pub fn chunk_by_type(&self, type_text: &str) -> (r: Option<&Chunk>)
        ensures
            spec_find(self@, type_text@) matches Some(i) ==> (r matches Some(c) && *c == self@[i]),
            (spec_find(self@, type_text@) is None) ==> r is None,
    {
        let tb = type_text.as_bytes();
        let mut j: usize = 0;
        while j < self.chunks.len()
            invariant
                j <= self@.len(),
                tb@ == encode_utf8(type_text@),
                forall|k: int| 0 <= k < j ==> !spec_type_matches(self@[k], type_text@),
            decreases self@.len() - j,
        {
            if Self::type_matches(&self.chunks[j], tb) {
                proof {
                    lemma_find_at(self@, type_text@, j as int);
                }
                return Some(&self.chunks[j]);
            }
            j = j + 1;
        }
        proof {
            lemma_find_first_match(self@, type_text@);
            if spec_find(self@, type_text@) is Some {
                let i = spec_find(self@, type_text@)->Some_0;
                assert(!spec_type_matches(self@[i], type_text@));
            }
        }
        None
    }

    /// Removes and returns the first chunk whose type spells the given text;
    /// with no match the container is unchanged.
    pub fn remove_chunk(&mut self, type_text: &str) -> (r: Option<Chunk>)
        ensures
            spec_find(old(self)@, type_text@) matches Some(i) ==> (r matches Some(c) && c == old(
                self,
            )@[i] && final(self)@ == old(self)@.remove(i)),
            (spec_find(old(self)@, type_text@) is None) ==> (r is None && final(self)@ == old(
                self,
            )@),
    {
        let tb = type_text.as_bytes();
        let mut j: usize = 0;
        while j < self.chunks.len()
            invariant
                j <= self@.len(),
                self@ == old(self)@,
                tb@ == encode_utf8(type_text@),
                forall|k: int| 0 <= k < j ==> !spec_type_matches(self@[k], type_text@),
            decreases self@.len() - j,
        {
            if Self::type_matches(&self.chunks[j], tb) {
                proof {
                    lemma_find_at(self@, type_text@, j as int);
                }
                let c = self.chunks.remove(j);
                return Some(c);
            }
            j = j + 1;
        }
        proof {
            lemma_find_first_match(self@, type_text@);
            if spec_find(self@, type_text@) is Some {
                let i = spec_find(self@, type_text@)->Some_0;
                assert(!spec_type_matches(self@[i], type_text@));
            }
        }
        None
    }

    /// True when the chunk's type bytes equal the given bytes.
    fn type_matches(c: &Chunk, tb: &[u8]) -> (r: bool)
        ensures
            r == (c.spec_type() == tb@),
    {
        let cb = c.chunk_type().bytes();
        if tb.len() != 4 {
            return false;
        }
        let r = cb[0] == tb[0] && cb[1] == tb[1] && cb[2] == tb[2] && cb[3] == tb[3];
        proof {
            if r {
                assert(c.spec_type() =~= tb@);
            }
        }
        r
    }

    /// The container's wire form: the signature bytes, then each chunk's wire
    /// form in list order.
    pub fn serialize(&self) -> (r: Vec<u8>)
        requires
            self.wf(),
        ensures
            r@ == self.spec_serial(),
    {
        let mut out: Vec<u8> = Vec::new();
        let sig = Self::signature();
        out.push(sig[0]);
        out.push(sig[1]);
        out.push(sig[2]);
        out.push(sig[3]);
        out.push(sig[4]);
        out.push(sig[5]);
        out.push(sig[6]);
        out.push(sig[7]);
        proof {
            assert(out@ =~= spec_signature() + spec_serial_models(
                chunk_models(self@.take(0)),
            ));
        }
        let mut j: usize = 0;
        while j < self.chunks.len()
            invariant
                self.wf(),
                j <= self@.len(),
                out@ == spec_signature() + spec_serial_models(chunk_models(self@.take(j as int))),
            decreases self@.len() - j,
        {
            proof {
                assert(chunk_models(self@.take(j as int + 1)) =~= chunk_models(
                    self@.take(j as int),
                ).push((self@[j as int].spec_type(), self@[j as int].spec_data())));
                lemma_serial_models_snoc(
                    chunk_models(self@.take(j as int)),
                    (self@[j as int].spec_type(), self@[j as int].spec_data()),
                );
            }
            Chunk::push_serial(&self.chunks[j], &mut out);
            j = j + 1;
        }
        proof {
            assert(self@.take(self@.len() as int) =~= self@);
        }
        out
    }
}

/// A record whose length field is consistent and whose checksum matches
/// re-serializes to itself, byte for byte.
proof fn lemma_record_reserializes(rec: Seq<u8>)
    requires
        rec.len() >= 12,
        spec_u32_from_be(rec.subrange(0, 4)) == rec.len() - 12,
        spec_parse_crc_matches(rec),
    ensures
        spec_chunk_serial(spec_parse_type(rec), spec_parse_data(rec)) == rec,
{
    let t = spec_parse_type(rec);
    let d = spec_parse_data(rec);
    assert(d.len() == rec.len() - 12);
    lemma_be_bytes_roundtrip(rec.subrange(0, 4));
    assert(spec_u32_to_be(d.len() as u32) == rec.subrange(0, 4));
    let f = rec.subrange(rec.len() - 4, rec.len() as int);
    lemma_be_bytes_roundtrip(f);
    assert(spec_u32_to_be(crate::crc::spec_crc32(t + d)) == f);
    assert(spec_chunk_serial(t, d) =~= rec);
}

/// Putting one more model in front prepends its wire form.
proof fn lemma_models_cons(t: Seq<u8>, d: Seq<u8>, rest: ChunkModels, rec: Seq<u8>, tail: Seq<u8>)
    requires
        spec_chunk_serial(t, d) == rec,
        spec_serial_models(rest) == tail,
    ensures
        spec_serial_models(seq![(t, d)] + rest) == rec + tail,
{
    let models = seq![(t, d)] + rest;
    assert(models[0] == (t, d));
    assert(models.drop_first() =~= rest);
}

/// A prefix and the rest of a sequence concatenate back to the sequence.
proof fn lemma_split_concat(raw: Seq<u8>, m: int)
    requires
        0 <= m <= raw.len(),
    ensures
        raw.subrange(0, m) + raw.skip(m) == raw,
{
    assert(raw.subrange(0, m) + raw.skip(m) =~= raw);
}

/// One parsing step in reverse: with the leading record's wire form standing
/// at the front of the buffer and the rest already reproduced, the whole
/// buffer is reproduced.
proof fn lemma_serial_step(raw: Seq<u8>, l: int, rest: ChunkModels)
    requires
        raw.len() >= 12,
        0 <= l,
        l == spec_u32_from_be(raw.subrange(0, 4)),
        raw.len() >= l + 12,
        spec_parse_crc_matches(raw.subrange(0, l + 12)),
        spec_serial_models(rest) == raw.skip(l + 12),
    ensures
        spec_serial_models(
            seq![
                (
                    spec_parse_type(raw.subrange(0, l + 12)),
                    spec_parse_data(raw.subrange(0, l + 12)),
                ),
            ] + rest,
        ) == raw,
{
    let rec = raw.subrange(0, l + 12);
    let t = spec_parse_type(rec);
    let d = spec_parse_data(rec);
    assert(rec.subrange(0, 4) =~= raw.subrange(0, 4));
    lemma_record_reserializes(rec);
    lemma_models_cons(t, d, rest, rec, raw.skip(l + 12));
    lemma_split_concat(raw, l + 12);
}

/// Walking the records of a buffer and re-serializing what was found gives the
/// buffer back, byte for byte.
proof fn lemma_chunks_round_trip(raw: Seq<u8>)
    ensures
        spec_parse_chunks(raw) matches Ok(models) ==> spec_serial_models(models) == raw,
    decreases raw.len(),
{
    if raw.len() == 0 {
        if spec_parse_chunks(raw) is Ok {
            assert(spec_serial_models(seq![]) =~= raw);
        }
    } else if raw.len() >= 12 {
        let l = spec_u32_from_be(raw.subrange(0, 4)) as int;
        if raw.len() >= l + 12 {
            let rec = raw.subrange(0, l + 12);
            if spec_parse_crc_matches(rec) && spec_parse_chunks(raw.skip(l + 12)) is Ok {
                let rest = spec_parse_chunks(raw.skip(l + 12))->Ok_0;
                lemma_chunks_round_trip(raw.skip(l + 12));
                lemma_serial_step(raw, l, rest);
            }
        }
    }
}

/// Round trip of a whole container: any buffer that parses successfully is
/// reproduced, byte for byte, by serializing what was parsed.
pub proof fn lemma_container_round_trip(raw: Seq<u8>)
    ensures
        spec_parse_png(raw) matches Ok(models) ==> spec_signature() + spec_serial_models(models)
            == raw,
{
    if spec_parse_png(raw) is Ok {
        lemma_chunks_round_trip(raw.skip(8));
        lemma_split_concat(raw, 8);
    }
}

/// `spec_find` returns nothing exactly when no chunk in the list matches.
pub proof fn lemma_find_none(chunks: Seq<Chunk>, text: Seq<char>)
    ensures
        (spec_find(chunks, text) is None) <==> (forall|j: int|
            0 <= j < chunks.len() ==> !spec_type_matches(chunks[j], text)),
{
    lemma_find_first_match(chunks, text);
    if spec_find(chunks, text) is Some {
        let i = spec_find(chunks, text)->Some_0;
        assert(spec_type_matches(chunks[i], text));
    }
}

/// Appending a chunk whose type no present chunk shares, then removing by that
/// type's text, returns exactly the appended chunk and restores the container.
pub proof fn lemma_append_remove(chunks: Seq<Chunk>, c: Chunk, text: Seq<char>)
    requires
        spec_type_matches(c, text),
        spec_find(chunks, text) is None,
    ensures
        spec_find(chunks.push(c), text) == Some(chunks.len() as int),
        chunks.push(c)[chunks.len() as int] == c,
        chunks.push(c).remove(chunks.len() as int) == chunks,
{
    lemma_find_none(chunks, text);
    assert(forall|k: int| 0 <= k < chunks.len() ==> chunks.push(c)[k] == #[trigger] chunks[k]);
    lemma_find_at(chunks.push(c), text, chunks.len() as int);
    assert(chunks.push(c).remove(chunks.len() as int) =~= chunks);
}

} // verus!
