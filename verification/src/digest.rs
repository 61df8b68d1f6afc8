//! Hashing.

use crate::types::H256;
use vstd::prelude::*;

verus! {

/// The Keccak-256 digest of some bytes.
pub uninterp spec fn keccak256(data: Seq<u8>) -> Seq<u8>;

/// `tiny_keccak::keccak256`: the digest depends on the bytes alone. How it is
/// computed from them is not said.
#[verifier::external_body]
fn tiny_keccak256(data: &[u8]) -> (digest: H256)
    ensures
        digest@ == keccak256(data@),
{
    tiny_keccak::keccak256(data)
}

/// Hashes some bytes.
pub fn sha3(data: &[u8]) -> (digest: H256)
    ensures
        digest@ == keccak256(data@),
{
    tiny_keccak256(data)
}

} // verus!
