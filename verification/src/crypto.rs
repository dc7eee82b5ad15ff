use vstd::prelude::*;

use crate::canonical::hex_digit;
use sha3::Digest;

verus! {

/// The SHA3-256 digest of a byte sequence. The digest is a pure
/// function of the input bytes; nothing further is assumed of it.
pub uninterp spec fn sha3_of(input: Seq<u8>) -> Seq<u8>;

/// Relies on `sha3::Sha3_256` through the `Digest` trait: the digest
/// depends on the input bytes alone and is 32 bytes long.
#[verifier::external_body]
pub fn sha3_256(input: &Vec<u8>) -> (r: Vec<u8>)
    ensures
        r@ == sha3_of(input@),
        r@.len() == 32,
{
    let mut hasher = sha3::Sha3_256::new();
    hasher.update(input.as_slice());
    hasher.finalize().to_vec()
}

/// Lowercase hex rendering: two digits per byte, high nibble first.
pub open spec fn hex_of(b: Seq<u8>) -> Seq<char>
    decreases b.len(),
{
    if b.len() == 0 {
        Seq::empty()
    } else {
        seq![hex_digit(b[0] as int / 16), hex_digit(b[0] as int % 16)] + hex_of(b.drop_first())
    }
}

/// `hex_of` yields two characters per byte.
pub proof fn lemma_hex_of_len(b: Seq<u8>)
    ensures
        hex_of(b).len() == 2 * b.len(),
    decreases b.len(),
{
    if b.len() > 0 {
        lemma_hex_of_len(b.drop_first());
    }
}

/// The hex rendering of a byte prefix is the corresponding prefix of
/// the full hex rendering.
pub proof fn lemma_hex_of_take(b: Seq<u8>, k: int)
    requires
        0 <= k <= b.len(),
    ensures
        hex_of(b.take(k)) == hex_of(b).take(2 * k),
    decreases k,
{
    lemma_hex_of_len(b);
    if k == 0 {
        assert(b.take(0) =~= Seq::<u8>::empty());
        assert(hex_of(b).take(0) =~= Seq::<char>::empty());
    } else {
        lemma_hex_of_take(b.drop_first(), k - 1);
        lemma_hex_of_len(b.drop_first());
        let t = b.take(k);
        assert(t[0] == b[0]);
        assert(t.drop_first() =~= b.drop_first().take(k - 1));
        assert(hex_of(b).take(2 * k) =~= seq![
            hex_digit(b[0] as int / 16),
            hex_digit(b[0] as int % 16),
        ] + hex_of(b.drop_first()).take(2 * k - 2));
        assert(hex_of(t) =~= hex_of(b).take(2 * k));
    }
}

/// Relies on `hex::encode`: two lowercase hex digits per input byte,
/// high nibble first.
#[verifier::external_body]
pub fn hex_encode(b: &Vec<u8>) -> (r: String)
    ensures
        r@ == hex_of(b@),
{
    hex::encode(b.as_slice())
}

/// A character of the RFC 4648 base32 alphabet.
pub open spec fn is_b32_char(c: char) -> bool {
    ('A' <= c && c <= 'Z') || ('2' <= c && c <= '7')
}

/// The RFC 4648 base32 rendering (uppercase, unpadded) of a byte
/// sequence: a function of the bytes alone.
pub uninterp spec fn base32_of(b: Seq<u8>) -> Seq<char>;

/// Relies on `base32::encode` with the RFC 4648 alphabet and no
/// padding: the output depends on the input bytes alone, holds one
/// character per five input bits (rounded up), and every character is
/// drawn from A-Z and 2-7.
#[verifier::external_body]
pub fn base32_encode(b: &Vec<u8>) -> (r: String)
    ensures
        r@ == base32_of(b@),
        r@.len() == (b@.len() * 8 + 4) / 5,
        forall|i: int| 0 <= i < r@.len() ==> is_b32_char(r@[i]),
{
    base32::encode(base32::Alphabet::Rfc4648 { padding: false }, b.as_slice())
}

} // verus!
