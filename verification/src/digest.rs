//! Keccak-256, by which owner keys and note ids are derived.

use vstd::prelude::*;

verus! {

/// The Keccak-256 digest of a byte string, as the chain computes it.
pub uninterp spec fn keccak256_digest(data: Seq<u8>) -> Seq<u8>;

/// Calls `ethers::utils::keccak256`, which feeds the bytes to a
/// Keccak-256 hasher and returns its 32-byte output; the contract names
/// that output and claims nothing else of it.
#[verifier::external_body]
pub(crate) fn keccak256(data: &[u8]) -> (digest: [u8; 32])
    ensures
        digest@ == keccak256_digest(data@),
{
    ethers::utils::keccak256(data)
}

} // verus!
