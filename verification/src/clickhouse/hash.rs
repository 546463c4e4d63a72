//! Digests.

use sha2::{Digest, Sha256};
use vstd::prelude::*;

verus! {

/// The SHA-256 digest of some octets.
pub uninterp spec fn sha256_of(data: Seq<u8>) -> [u8; 32];

/// The SHA-256 digest of some octets, as octets.
pub open spec fn sha256(data: Seq<u8>) -> Seq<u8> {
    sha256_of(data)@
}

/// `Sha256::digest` gives the SHA-256 digest of some octets.
#[verifier::external_body]
pub(crate) fn sha256_digest(data: &[u8]) -> (r: [u8; 32])
    ensures
        r == sha256_of(data@),
{
    Sha256::digest(data).into()
}

} // verus!
