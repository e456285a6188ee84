//! Hex encoding, SHA-256 and randomness, as the service uses them for
//! tokens, token hashes and entity tags.

use rand::RngCore;
use sha2::Digest;
use vstd::prelude::*;

verus! {

/// Lowercase hex digit for a value below 16.
pub open spec fn hex_digit(d: int) -> char {
    if d < 10 {
        ('0' as int + d) as char
    } else {
        ('a' as int + d - 10) as char
    }
}

/// Lowercase hex encoding: each byte becomes two characters, the high
/// nibble first.
pub open spec fn hex_lower(bytes: Seq<u8>) -> Seq<char>
    decreases bytes.len(),
{
    if bytes.len() == 0 {
        Seq::empty()
    } else {
        seq![hex_digit((bytes[0] / 16) as int), hex_digit((bytes[0] % 16) as int)] + hex_lower(
            bytes.drop_first(),
        )
    }
}

/// A character of `0-9a-f`.
pub open spec fn is_lower_hex_char(c: char) -> bool {
    ('0' <= c && c <= '9') || ('a' <= c && c <= 'f')
}

pub open spec fn is_lower_hex(s: Seq<char>) -> bool {
    forall|i: int| 0 <= i < s.len() ==> is_lower_hex_char(#[trigger] s[i])
}

/// The SHA-256 digest of `data`.
pub uninterp spec fn sha256_digest(data: Seq<u8>) -> Seq<u8>;

/// `hex::encode`: documented as the lowercase hex encoding of its input.
#[verifier::external_body]
pub(crate) fn hex_encode(data: &[u8]) -> (r: String)
    ensures
        r@ == hex_lower(data@),
{
    hex::encode(data)
}

/// `sha2::Sha256::digest`: the 32-byte SHA-256 digest of its input, a
/// function of the input alone; its value is named, not spelled out.
#[verifier::external_body]
pub(crate) fn sha256(data: &[u8]) -> (r: Vec<u8>)
    ensures
        r@ == sha256_digest(data@),
        r@.len() == 32,
{
    sha2::Sha256::digest(data).to_vec()
}

/// `rand::rng().fill_bytes` on a fresh buffer of `n` bytes: only the length
/// of the outcome is known.
#[verifier::external_body]
pub(crate) fn random_bytes(n: usize) -> (r: Vec<u8>)
    ensures
        r@.len() == n,
{
    let mut buf = vec![0u8; n];
    rand::rng().fill_bytes(&mut buf);
    buf
}

/// Hex encoding doubles the length and yields only lowercase hex digits.
pub proof fn lemma_hex_lower_shape(bytes: Seq<u8>)
    ensures
        hex_lower(bytes).len() == 2 * bytes.len(),
        is_lower_hex(hex_lower(bytes)),
    decreases bytes.len(),
{
    if bytes.len() > 0 {
        lemma_hex_lower_shape(bytes.drop_first());
        let h = hex_lower(bytes);
        let t = hex_lower(bytes.drop_first());
        let hi = hex_digit((bytes[0] / 16) as int);
        let lo = hex_digit((bytes[0] % 16) as int);
        assert(is_lower_hex_char(hi));
        assert(is_lower_hex_char(lo));
        assert forall|i: int| 0 <= i < h.len() implies is_lower_hex_char(#[trigger] h[i]) by {
            if i >= 2 {
                assert(h[i] == t[i - 2]);
            }
        }
    }
}

} // verus!
