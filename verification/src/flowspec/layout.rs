//! The header of an entry.

use crate::wire::{of_be16, of_be32};
use vstd::prelude::*;

verus! {

/// Version of the blob layout.
pub const BLOB_VERSION: u8 = 1;

/// Length of the part of an entry before the NLRI.
pub const ENTRY_HEADER: usize = 7;

/// Length of the NLRI of the entry at the start of `body`.
#[verifier::opaque]
pub open spec fn nlri_len(body: Seq<u8>) -> int {
    of_be16(body.subrange(1, 3))
}

/// Length of the attributes of the entry at the start of `body`.
#[verifier::opaque]
pub open spec fn pa_len(body: Seq<u8>) -> int {
    of_be32(body.subrange(3, 7))
}

/// The lengths in an entry fit the octets that they are written in.
pub broadcast proof fn lengths_fit(body: Seq<u8>)
    ensures
        0 <= #[trigger] nlri_len(body) <= u16::MAX,
        0 <= #[trigger] pa_len(body) <= u32::MAX,
{
    reveal(nlri_len);
    reveal(pa_len);
}

} // verus!
