//! SHA-256 digests and their hexadecimal text.

use vstd::prelude::*;
use crate::audit::hex_char;

verus! {

/// The SHA-256 digest of `data`, as `sha2::Sha256` computes it.
pub uninterp spec fn sha256(data: Seq<u8>) -> Seq<u8>;

/// Each byte as two lowercase hexadecimal digits, high nibble first.
pub open spec fn hex_bytes(b: Seq<u8>) -> Seq<char> {
    Seq::new(
        2 * b.len(),
        |i: int|
            if i % 2 == 0 {
                hex_char((b[i / 2] / 16) as nat)
            } else {
                hex_char((b[i / 2] % 16) as nat)
            },
    )
}

/// `sha2::Sha256::digest`: the 32-byte digest, a function of the data alone.
#[verifier::external_body]
pub(crate) fn sha256_digest(data: &[u8]) -> (r: Vec<u8>)
    ensures
        r@ == sha256(data@),
        r@.len() == 32,
{
    <sha2::Sha256 as sha2::Digest>::digest(data).to_vec()
}

/// `hex::encode`: every byte as two lowercase hexadecimal digits.
#[verifier::external_body]
pub(crate) fn hex_encode(bytes: &[u8]) -> (r: String)
    ensures
        r@ == hex_bytes(bytes@),
{
    hex::encode(bytes)
}

/// The SHA-256 digest of `data` in lowercase hexadecimal (64 digits).
pub fn compute_hash(data: &[u8]) -> (r: String)
    ensures
        r@ == hex_bytes(sha256(data@)),
        r@.len() == 64,
{
    let d = sha256_digest(data);
    hex_encode(d.as_slice())
}

/// The first 16 hexadecimal digits of the SHA-256 digest of `input`: a short
/// hash that tells inputs apart in the audit trail.
pub fn input_hash_prefix(input: &[u8]) -> (r: String)
    ensures
        r@ == hex_bytes(sha256(input@)).take(16),
{
    let full = compute_hash(input);
    let chars = crate::text::chars_of(full.as_str());
    crate::text::string_from(chars.as_slice(), 0, 16)
}

} // verus!
