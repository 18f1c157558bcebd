//! Content hashing: SHA-256 digests and their lowercase hex form.
//!
//! The digest itself comes from an outside implementation and is only
//! named here; the hex encoding has an exact character-level contract.

use vstd::prelude::*;

use sha2::Digest;

verus! {

/// The SHA-256 digest of a byte sequence.
pub uninterp spec fn sha256_of(bytes: Seq<u8>) -> Seq<u8>;

/// Number of bytes in a SHA-256 digest.
pub const SHA256_LEN: usize = 32;

/// Relies on sha2's `Sha256`: the digest is 32 bytes and depends on the
/// input bytes alone.
#[verifier::external_body]
pub fn sha256(bytes: &[u8]) -> (r: Vec<u8>)
    ensures
        r@ == sha256_of(bytes@),
        r@.len() == SHA256_LEN,
{
    sha2::Sha256::digest(bytes).as_slice().to_vec()
}

/// The lowercase hex character for a value below sixteen.
pub open spec fn hex_digit(n: int) -> char {
    "0123456789abcdef"@[n]
}

/// Lowercase hex encoding: two digits per byte, high nibble first.
pub open spec fn hex_of(bytes: Seq<u8>) -> Seq<char> {
    Seq::new(2 * bytes.len(), |i: int|
        if i % 2 == 0 {
            hex_digit(bytes[i / 2] as int / 16)
        } else {
            hex_digit(bytes[i / 2] as int % 16)
        })
}

/// Relies on hex::encode: each byte becomes its two lowercase hex
/// digits, high nibble first.
#[verifier::external_body]
pub fn hex_encode(bytes: &[u8]) -> (r: String)
    ensures
        r@ == hex_of(bytes@),
{
    hex::encode(bytes)
}

/// Hex output is ASCII, so it can be sliced and appended freely.
pub proof fn lemma_hex_of_ascii(bytes: Seq<u8>)
    ensures
        vstd::utf8::is_ascii_chars(hex_of(bytes)),
        hex_of(bytes).len() == 2 * bytes.len(),
{
    reveal_strlit("0123456789abcdef");
    assert forall|i: int| 0 <= i < hex_of(bytes).len() implies '\0' <= #[trigger] hex_of(bytes)[i]
        <= '\u{7f}' by {
        let b = bytes[i / 2] as int;
        assert(0 <= b / 16 < 16);
        assert(0 <= b % 16 < 16);
        assert(forall|n: int| 0 <= n < 16 ==> '\0' <= #[trigger] hex_digit(n) <= '\u{7f}') by {
            assert(hex_digit(0) == '0');
            assert(hex_digit(1) == '1');
            assert(hex_digit(2) == '2');
            assert(hex_digit(3) == '3');
            assert(hex_digit(4) == '4');
            assert(hex_digit(5) == '5');
            assert(hex_digit(6) == '6');
            assert(hex_digit(7) == '7');
            assert(hex_digit(8) == '8');
            assert(hex_digit(9) == '9');
            assert(hex_digit(10) == 'a');
            assert(hex_digit(11) == 'b');
            assert(hex_digit(12) == 'c');
            assert(hex_digit(13) == 'd');
            assert(hex_digit(14) == 'e');
            assert(hex_digit(15) == 'f');
        }
    }
}

/// The lowercase hex form of the SHA-256 digest of `bytes`; this is the
/// shape every stored `content_hash` has.
pub open spec fn spec_content_hash(bytes: Seq<u8>) -> Seq<char> {
    hex_of(sha256_of(bytes))
}

/// Hash content into the hex digest string used as `content_hash`.
pub fn content_hash(bytes: &[u8]) -> (r: String)
    ensures
        r@ == spec_content_hash(bytes@),
        r@.len() == 64,
        vstd::utf8::is_ascii_chars(r@),
{
    let digest = sha256(bytes);
    let r = hex_encode(digest.as_slice());
    proof {
        lemma_hex_of_ascii(sha256_of(bytes@));
    }
    r
}

} // verus!
