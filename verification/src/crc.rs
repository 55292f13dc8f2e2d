//! CRC-32/ISO-HDLC: the reflected polynomial 0xEDB88320, register seeded with
//! all ones, result complemented.  The checksum is computed with a 256-entry
//! lookup table; the specification below defines both the table and the
//! byte-by-byte update, and the lemmas at the end show that the checksum
//! detects any corruption that is confined to a single byte.

use vstd::prelude::*;

verus! {

/// Reflected form of the CRC-32 generator polynomial.
pub const CRC32_POLYNOMIAL: u32 = 0xedb88320;

/// All-ones value that both seeds the CRC register and complements the result.
pub const CRC32_ONES: u32 = 0xffffffff;

/// One round of polynomial division: shift right, folding the dropped low bit
/// back in as the polynomial.
pub open spec fn crc_round(c: u32) -> u32 {
    if c & 1 == 1 {
        CRC32_POLYNOMIAL ^ (c >> 1)
    } else {
        c >> 1
    }
}

/// `k` rounds of `crc_round`.
pub open spec fn crc_rounds(c: u32, k: nat) -> u32
    decreases k,
{
    if k == 0 {
        c
    } else {
        crc_round(crc_rounds(c, (k - 1) as nat))
    }
}

/// The lookup-table entry for index `i`: eight rounds applied to the index.
pub open spec fn crc_table_entry(i: u32) -> u32 {
    crc_rounds(i, 8)
}

/// Folding one byte into the running remainder, exactly as the table-driven
/// update performs it.
pub open spec fn crc_push_byte(c: u32, b: u8) -> u32 {
    crc_table_entry((c ^ (b as u32)) & 0xff) ^ (c >> 8)
}

/// Folding a whole byte sequence into the running remainder, first byte first.
pub open spec fn crc_fold(c: u32, bytes: Seq<u8>) -> u32
    decreases bytes.len(),
{
    if bytes.len() == 0 {
        c
    } else {
        crc_push_byte(crc_fold(c, bytes.drop_last()), bytes.last())
    }
}

/// CRC-32/ISO-HDLC of a byte sequence: seed with all ones, fold every byte in,
/// complement the remainder.
pub open spec fn spec_crc32(bytes: Seq<u8>) -> u32 {
    crc_fold(CRC32_ONES, bytes) ^ CRC32_ONES
}

/// The 256-entry lookup table for the table-driven computation.
pub struct CRC([u32; 256]);

impl CRC {
    /// Each entry holds eight polynomial rounds applied to its own index.
    pub closed spec fn wf(&self) -> bool {
        forall|i: int| 0 <= i < 256 ==> self.0@[i] == crc_table_entry(i as u32)
    }
}

/// Builds the lookup table: entry `n` is eight rounds applied to `n`.
pub fn make_crc_table() -> (r: CRC)
    ensures
        r.wf(),
{
    let mut table: [u32; 256] = [0u32; 256];
    let mut n: usize = 0;
    while n < 256
        invariant
            n <= 256,
            forall|i: int| 0 <= i < n ==> table@[i] == crc_table_entry(i as u32),
        decreases 256 - n,
    {
        let mut c: u32 = n as u32;
        let mut k: usize = 0;
        while k < 8
            invariant
                k <= 8,
                n < 256,
                c == crc_rounds(n as u32, k as nat),
            decreases 8 - k,
        {
            if (c & 1) == 1 {
                c = CRC32_POLYNOMIAL ^ (c >> 1);
            } else {
                c = c >> 1;
            }
            k = k + 1;
        }
        table[n] = c;
        n = n + 1;
    }
    CRC(table)
}

/// Folds every byte of `buf` into the remainder `crca` through the table.
pub fn update_crc(table: &CRC, crca: u32, buf: &[u8]) -> (r: u32)
    requires
        table.wf(),
    ensures
        r == crc_fold(crca, buf@),
{
    let mut c = crca;
    let mut n: usize = 0;
    while n < buf.len()
        invariant
            table.wf(),
            n <= buf@.len(),
            c == crc_fold(crca, buf@.take(n as int)),
        decreases buf@.len() - n,
    {
        let ch = buf[n] as u32;
        assert(((c ^ ch) & 0xff) < 256) by (bit_vector);
        let pos = ((c ^ ch) & 0xff) as usize;
        let tbl = table.0[pos];
        proof {
            assert(buf@.take(n as int + 1).drop_last() =~= buf@.take(n as int));
            assert(buf@.take(n as int + 1).last() == buf@[n as int]);
        }
        c = tbl ^ (c >> 8);
        n = n + 1;
    }
    proof {
        assert(buf@.take(buf@.len() as int) =~= buf@);
    }
    c
}

/// CRC-32/ISO-HDLC of `buf`.
pub fn crc(buf: &[u8]) -> (r: u32)
    ensures
        r == spec_crc32(buf@),
{
    let table = make_crc_table();
    let crca: u32 = CRC32_ONES;
    let folded = update_crc(&table, crca, buf);
    folded ^ crca
}

/// One table-driven byte update equals eight polynomial rounds applied to the
/// register XORed with the byte.
proof fn lemma_push_byte_rounds(c: u32, b: u8)
    ensures
        crc_push_byte(c, b) == crc_rounds(c ^ (b as u32), 8),
{
    assert(crc_push_byte(c, b) == crc_rounds(c ^ (b as u32), 8)) by (bit_vector);
}

/// Eight rounds are injective: registers that agree afterwards agreed before.
proof fn lemma_rounds_injective(x: u32, y: u32)
    requires
        crc_rounds(x, 8) == crc_rounds(y, 8),
    ensures
        x == y,
{
    assert(crc_rounds(x, 8) == crc_rounds(y, 8) ==> x == y) by (bit_vector);
}

/// Folding the same byte into two distinct registers keeps them distinct.
proof fn lemma_push_byte_state_injective(c1: u32, c2: u32, b: u8)
    requires
        crc_push_byte(c1, b) == crc_push_byte(c2, b),
    ensures
        c1 == c2,
{
    lemma_push_byte_rounds(c1, b);
    lemma_push_byte_rounds(c2, b);
    lemma_rounds_injective(c1 ^ (b as u32), c2 ^ (b as u32));
    assert(c1 ^ (b as u32) == c2 ^ (b as u32) ==> c1 == c2) by (bit_vector);
}

/// Folding two different bytes into the same register separates it.
proof fn lemma_push_byte_byte_sensitive(c: u32, b1: u8, b2: u8)
    requires
        b1 != b2,
    ensures
        crc_push_byte(c, b1) != crc_push_byte(c, b2),
{
    lemma_push_byte_rounds(c, b1);
    lemma_push_byte_rounds(c, b2);
    if crc_push_byte(c, b1) == crc_push_byte(c, b2) {
        lemma_rounds_injective(c ^ (b1 as u32), c ^ (b2 as u32));
        assert(c ^ (b1 as u32) == c ^ (b2 as u32) ==> b1 == b2) by (bit_vector);
    }
}

/// Folding two equal-length sequences that differ in exactly one position
/// leaves the remainders different.
proof fn lemma_fold_single_byte_diff(c: u32, s1: Seq<u8>, s2: Seq<u8>, p: int)
    requires
        s1.len() == s2.len(),
        0 <= p < s1.len(),
        s1[p] != s2[p],
        forall|i: int| 0 <= i < s1.len() && i != p ==> s1[i] == s2[i],
    ensures
        crc_fold(c, s1) != crc_fold(c, s2),
    decreases s1.len(),
{
    let n = s1.len() as int;
    if p == n - 1 {
        assert(s1.drop_last() =~= s2.drop_last());
        lemma_push_byte_byte_sensitive(crc_fold(c, s1.drop_last()), s1.last(), s2.last());
    } else {
        lemma_fold_single_byte_diff(c, s1.drop_last(), s2.drop_last(), p);
        if crc_fold(c, s1) == crc_fold(c, s2) {
            lemma_push_byte_state_injective(
                crc_fold(c, s1.drop_last()),
                crc_fold(c, s2.drop_last()),
                s1.last(),
            );
        }
    }
}

/// Two equal-length byte sequences that differ in exactly one byte have
/// different CRC-32 checksums: any corruption confined to a single byte -- in
/// particular a single flipped bit -- changes the checksum.
pub proof fn lemma_crc32_single_byte_sensitivity(s1: Seq<u8>, s2: Seq<u8>, p: int)
    requires
        s1.len() == s2.len(),
        0 <= p < s1.len(),
        s1[p] != s2[p],
        forall|i: int| 0 <= i < s1.len() && i != p ==> s1[i] == s2[i],
    ensures
        spec_crc32(s1) != spec_crc32(s2),
{
    lemma_fold_single_byte_diff(CRC32_ONES, s1, s2, p);
    let f1 = crc_fold(CRC32_ONES, s1);
    let f2 = crc_fold(CRC32_ONES, s2);
    assert(f1 != f2 ==> f1 ^ 0xffffffffu32 != f2 ^ 0xffffffffu32) by (bit_vector);
}

/// Flipping any one bit of a byte changes the byte.
pub proof fn lemma_bit_flip_changes_byte(b: u8, j: u8)
    requires
        j < 8,
    ensures
        (b ^ (1u8 << j)) != b,
{
    assert(j < 8 ==> (b ^ (1u8 << j)) != b) by (bit_vector);
}

} // verus!
