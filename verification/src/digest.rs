//! SHA-256, as computed by the `sha2` crate.

use sha2::Digest;
use vstd::prelude::*;

verus! {

/// The SHA-256 digest of a message. The function is not defined here: it
/// stands for what the `sha2` crate computes, and all that is known of it is
/// that equal messages have equal digests.
pub uninterp spec fn sha256_digest(data: Seq<u8>) -> Seq<u8>;

/// Calls `sha2::Sha256::digest`, which hashes the whole of `data` in one go.
///
/// Trusted, not proved: the 32 bytes returned are the SHA-256 digest of
/// `data`, a function of the bytes of `data` alone.
#[verifier::external_body]
pub(crate) fn sha256(data: &[u8]) -> (out: [u8; 32])
    ensures
        out@ == sha256_digest(data@),
{
    sha2::Sha256::digest(data).into()
}

} // verus!
