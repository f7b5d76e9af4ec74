//! Content digests: BLAKE3 for container integrity trailers and sequence
//! identities, SHA-256 for cross-checking an independent frame oracle.

use vstd::prelude::*;

verus! {

/// The BLAKE3 digest (32 bytes) of a byte string.
pub uninterp spec fn blake3_of(bytes: Seq<u8>) -> Seq<u8>;

/// The SHA-256 digest (32 bytes) of a byte string.
pub uninterp spec fn sha256_of(bytes: Seq<u8>) -> Seq<u8>;

/// Calls `blake3::hash` and returns its 32 output bytes. Trusted: the
/// result is the BLAKE3 digest of exactly the bytes given, and depends on
/// nothing else.
#[verifier::external_body]
pub(crate) fn blake3_digest(bytes: &[u8]) -> (r: [u8; 32])
    ensures
        r@ == blake3_of(bytes@),
{
    *blake3::hash(bytes).as_bytes()
}

/// Calls `<sha2::Sha256 as sha2::Digest>::digest` and returns its 32
/// output bytes. Trusted: the result is the SHA-256 digest of exactly the
/// bytes given, and depends on nothing else.
#[verifier::external_body]
pub(crate) fn sha256_digest(bytes: &[u8]) -> (r: [u8; 32])
    ensures
        r@ == sha256_of(bytes@),
{
    let d = <sha2::Sha256 as sha2::Digest>::digest(bytes);
    let mut out = [0u8; 32];
    out.copy_from_slice(d.as_slice());
    out
}

} // verus!
