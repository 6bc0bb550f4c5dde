//! The BLAKE3 hash, as the library uses it: one call over a byte slice.

use vstd::prelude::*;

verus! {

/// The 32-byte BLAKE3 digest of a byte sequence (the default, unkeyed hash).
pub uninterp spec fn blake3_digest(data: Seq<u8>) -> Seq<u8>;

/// Calls `blake3::hash`. Trusted: the returned bytes are the BLAKE3 digest of
/// `data`, a function of `data` alone; its length is fixed by the array type.
#[verifier::external_body]
pub(crate) fn blake3_hash(data: &[u8]) -> (digest: [u8; 32])
    ensures
        digest@ == blake3_digest(data@),
{
    *blake3::hash(data).as_bytes()
}

} // verus!
