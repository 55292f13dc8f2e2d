//! Conversions between byte sequences and text: the UTF-8 decoding used to
//! read chunk payloads as strings, and the fact that ASCII bytes decode to one
//! character per byte.

use vstd::prelude::*;
use vstd::utf8::decode_utf8;
use vstd::utf8::is_leading_byte_width_1;
use vstd::utf8::valid_utf8;

verus! {

/// The characters of an ASCII byte sequence, one character per byte.
pub open spec fn ascii_chars(bytes: Seq<u8>) -> Seq<char> {
    Seq::new(bytes.len(), |i: int| bytes[i] as char)
}

/// True when every byte of the sequence is ASCII.
pub open spec fn all_ascii(bytes: Seq<u8>) -> bool {
    forall|i: int| 0 <= i < bytes.len() ==> bytes[i] < 0x80
}

/// An ASCII byte sequence is valid UTF-8 and decodes to one character per byte.
pub proof fn lemma_ascii_bytes_decode(bytes: Seq<u8>)
    requires
        all_ascii(bytes),
    ensures
        valid_utf8(bytes),
        decode_utf8(bytes) == ascii_chars(bytes),
    decreases bytes.len(),
{
    if bytes.len() == 0 {
        assert(decode_utf8(bytes) =~= ascii_chars(bytes));
    } else {
        let b = bytes[0];
        assert(is_leading_byte_width_1(b));
        assert(b < 0x80 ==> (b & 0x7f) == b) by (bit_vector);
        let rest = bytes.subrange(1, bytes.len() as int);
        lemma_ascii_bytes_decode(rest);
        assert(decode_utf8(bytes) =~= ascii_chars(bytes));
    }
}

/// The character for one decimal digit.
pub open spec fn dec_digit(d: nat) -> char {
    ((0x30 + (d % 10)) as u8) as char
}

/// The decimal digits of a number, most significant first.
pub open spec fn spec_dec_chars(n: nat) -> Seq<char>
    decreases n,
    via spec_dec_chars_decreases
{
    if n < 10 {
        seq![dec_digit(n)]
    } else {
        spec_dec_chars(n / 10).push(dec_digit(n % 10))
    }
}

#[via_fn]
proof fn spec_dec_chars_decreases(n: nat) {
    if n >= 10 {
        vstd::arithmetic::div_mod::lemma_div_decreases(n as int, 10);
    }
}

/// The bytes read back to front, one character per byte.
pub open spec fn rev_chars(bytes: Seq<u8>) -> Seq<char> {
    Seq::new(bytes.len(), |i: int| bytes[bytes.len() - 1 - i] as char)
}

/// The decimal text of a 32-bit value.
pub fn u32_to_dec_string(n: u32) -> (r: String)
    ensures
        r@ == spec_dec_chars(n as nat),
{
    let mut rev: Vec<u8> = Vec::new();
    let mut m: u32 = n;
    proof {
        assert(spec_dec_chars(n as nat) =~= spec_dec_chars(m as nat) + rev_chars(rev@));
    }
    while m >= 10
        invariant
            forall|i: int| 0 <= i < rev@.len() ==> 0x30 <= #[trigger] rev@[i] <= 0x39,
            spec_dec_chars(n as nat) == spec_dec_chars(m as nat) + rev_chars(rev@),
        decreases m,
    {
        let d: u8 = (m % 10) as u8;
        proof {
            lemma_push_digit(n as nat, m as nat, rev@, (0x30 + d) as u8);
        }
        rev.push(0x30 + d);
        m = m / 10;
    }
    let d: u8 = (m % 10) as u8;
    proof {
        lemma_push_digit(n as nat, m as nat, rev@, (0x30 + d) as u8);
        assert(spec_dec_chars((m as nat) / 10).push(dec_digit((m as nat) % 10)) =~= spec_dec_chars(
            (m as nat) / 10,
        ) + seq![dec_digit((m as nat) % 10)]);
    }
    rev.push(0x30 + d);
    let mut out: Vec<u8> = Vec::new();
    let mut j: usize = 0;
    while j < rev.len()
        invariant
            j <= rev@.len(),
            forall|i: int| 0 <= i < rev@.len() ==> 0x30 <= #[trigger] rev@[i] <= 0x39,
            out@.len() == j,
            forall|i: int| 0 <= i < j ==> #[trigger] out@[i] == rev@[rev@.len() - 1 - i],
        decreases rev@.len() - j,
    {
        out.push(rev[rev.len() - 1 - j]);
        j = j + 1;
    }
    proof {
        assert(all_ascii(out@));
        lemma_ascii_bytes_decode(out@);
        assert(ascii_chars(out@) =~= rev_chars(rev@));
    }
    match utf8_to_string(&out) {
        Some(s) => s,
        None => {
            proof {
                assert(false);
            }
            String::new()
        },
    }
}

/// Appending the digit of `m`'s lowest place to the collected digits keeps the
/// decomposition of `n` intact.
proof fn lemma_push_digit(n: nat, m: nat, rev: Seq<u8>, b: u8)
    requires
        spec_dec_chars(n) == spec_dec_chars(m) + rev_chars(rev),
        b == 0x30 + (m % 10),
    ensures
        spec_dec_chars(n) == spec_dec_chars(m / 10) + rev_chars(rev.push(b)) || (m < 10
            && spec_dec_chars(n) == rev_chars(rev.push(b))),
{
    assert(rev_chars(rev.push(b)) =~= seq![dec_digit(m % 10)] + rev_chars(rev));
    if m < 10 {
        assert(spec_dec_chars(m) =~= seq![dec_digit(m)]);
        assert(spec_dec_chars(n) =~= rev_chars(rev.push(b)));
    } else {
        assert(spec_dec_chars(m) =~= spec_dec_chars(m / 10) + seq![dec_digit(m % 10)]);
        assert(spec_dec_chars(m / 10) + rev_chars(rev.push(b)) =~= spec_dec_chars(n));
    }
}

/// Relies on `String::from_utf8`: it succeeds exactly when the bytes are a
/// valid UTF-8 encoding, and then returns the decoded characters.
#[verifier::external_body]
pub(crate) fn utf8_to_string(bytes: &Vec<u8>) -> (r: Option<String>)
    ensures
        (r is Some) <==> valid_utf8(bytes@),
        r matches Some(s) ==> s@ == decode_utf8(bytes@),
{
    match String::from_utf8(bytes.clone()) {
        Ok(s) => Some(s),
        Err(_) => None,
    }
}

} // verus!
