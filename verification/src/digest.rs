//! Content hashes.

use vstd::prelude::*;

verus! {

/// The BLAKE3 hash of some bytes.
pub uninterp spec fn blake3_of(bytes: Seq<u8>) -> Seq<u8>;

/// `blake3::hash`. Claimed: the result is a function of the bytes, and 32 bytes
/// long.
#[verifier::external_body]
pub(crate) fn blake3_bytes(bytes: &[u8]) -> (r: Vec<u8>)
    ensures
        r@ == blake3_of(bytes@),
        r@.len() == 32,
{
    blake3::hash(bytes).as_bytes().to_vec()
}

/// Bytes in hexadecimal, two small digits each.
pub open spec fn hex(bytes: Seq<u8>) -> Seq<char>
    decreases bytes.len(),
{
    if bytes.len() == 0 {
        Seq::empty()
    } else {
        hex(bytes.drop_last()).push(crate::schema::hex_char(bytes.last() as int / 16)).push(
            crate::schema::hex_char(bytes.last() as int % 16),
        )
    }
}

/// The hash of a text, in hexadecimal.
pub open spec fn text_hash(s: Seq<char>) -> Seq<char> {
    hex(blake3_of(vstd::utf8::encode_utf8(s)))
}

/// A hexadecimal text is twice as long as its bytes, and ASCII.
pub proof fn lemma_hex(bytes: Seq<u8>)
    ensures
        hex(bytes).len() == 2 * bytes.len(),
        crate::schema::is_ascii_text(hex(bytes)),
    decreases bytes.len(),
{
    if bytes.len() > 0 {
        lemma_hex(bytes.drop_last());
        let s = hex(bytes);
        let t = hex(bytes.drop_last());
        assert forall|i: int| 0 <= i < s.len() implies (#[trigger] s[i] as u32) < 128 by {
            if i < t.len() {
                assert(s[i] == t[i]);
            }
        }
    }
}

/// Writes bytes in hexadecimal.
fn to_hex(bytes: &Vec<u8>) -> (r: String)
    ensures
        r@ == hex(bytes@),
{
    let mut out = String::new();
    let mut i: usize = 0;
    assert(bytes@.take(0) =~= Seq::<u8>::empty());
    while i < bytes.len()
        invariant
            i <= bytes.len(),
            out@ == hex(bytes@.take(i as int)),
        decreases bytes.len() - i,
    {
        let b: u8 = bytes[i];
        out.push(crate::schema::hex_digit(b / 16));
        out.push(crate::schema::hex_digit(b % 16));
        i = i + 1;
        assert(bytes@.take(i as int).drop_last() =~= bytes@.take(i - 1));
    }
    assert(bytes@.take(bytes@.len() as int) =~= bytes@);
    out
}

/// Hashes a text.
pub fn hash_text(s: &str) -> (r: String)
    ensures
        r@ == text_hash(s@),
        r@.len() == 64,
        crate::schema::is_ascii_text(r@),
{
    let bytes = blake3_bytes(s.as_bytes());
    proof {
        lemma_hex(bytes@);
    }
    to_hex(&bytes)
}

} // verus!
