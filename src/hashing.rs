//! The hash functions that the library takes from other crates.
use vstd::prelude::*;

verus! {

/// The 64 lowercase hex digits of the SHA-256 of `data`, as sha2 computes them.
pub uninterp spec fn sha256_hex_of(data: Seq<u8>) -> Seq<char>;

/// The SHA-256 of `data` in lowercase hex, as the sha256 crate computes it.
pub uninterp spec fn digest_hex_of(data: Seq<u8>) -> Seq<char>;

/// The 64-bit SeaHash of `data` with the default seeds.
pub uninterp spec fn seahash_of(data: Seq<u8>) -> u64;

/// `c` is one of `0-9a-f`.
pub open spec fn is_lower_hex_digit(c: char) -> bool {
    ('0' <= c && c <= '9') || ('a' <= c && c <= 'f')
}

/// Every character of `s` is one of `0-9a-f`.
pub open spec fn is_lower_hex(s: Seq<char>) -> bool {
    forall|i: int| 0 <= i < s.len() ==> is_lower_hex_digit(#[trigger] s[i])
}

/// Relies on sha2's `Sha256::digest` and on generic-array's `LowerHex`, which
/// writes two lowercase hex digits for each of the 32 bytes of the hash.
#[verifier::external_body]
pub(crate) fn sha256_hex(data: &[u8]) -> (r: String)
    ensures
        r@ == sha256_hex_of(data@),
        r@.len() == 64,
        is_lower_hex(r@),
{
    format!("{:x}", <sha2::Sha256 as sha2::Digest>::digest(data))
}

/// Relies on the sha256 crate's `digest`, which is `hex::encode` of sha2's
/// 32-byte SHA-256: 64 lowercase hex digits.
#[verifier::external_body]
pub(crate) fn digest_hex(data: &[u8]) -> (r: String)
    ensures
        r@ == digest_hex_of(data@),
        r@.len() == 64,
        is_lower_hex(r@),
{
    sha256::digest(data)
}

/// Relies on seahash's `SeaHasher` (default seeds): the hash of the bytes written into it.
#[verifier::external_body]
pub(crate) fn seahash_fingerprint(data: &[u8]) -> (r: u64)
    ensures
        r == seahash_of(data@),
{
    let mut hasher = seahash::SeaHasher::default();
    std::hash::Hasher::write(&mut hasher, data);
    std::hash::Hasher::finish(&hasher)
}

} // verus!
