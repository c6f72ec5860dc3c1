//! The Blake2b hash of 256 bits, by which content and headers are known.

use vstd::prelude::*;

verus! {

/// What `sp_runtime::traits::BlakeTwo256::hash` makes of `data`: the Blake2b
/// digest of 256 bits, without a key.
pub uninterp spec fn blake2_256(data: Seq<u8>) -> Seq<u8>;

/// What `sp_core::Blake2Hasher::hash` makes of `data`: the Blake2b digest of
/// 256 bits, without a key.
pub uninterp spec fn database_hash(data: Seq<u8>) -> Seq<u8>;

/// Calls `sp_runtime::traits::BlakeTwo256::hash`, by which peers know content.
/// Claimed: the bytes of the result depend on the data alone.
#[verifier::external_body]
pub(crate) fn blake_two_256(data: &[u8]) -> (digest: [u8; 32])
    ensures
        digest@ == blake2_256(data@),
{
    <sp_runtime::traits::BlakeTwo256 as sp_runtime::traits::Hash>::hash(data).to_fixed_bytes()
}

/// Calls `sp_core::Blake2Hasher::hash`, by which the database knows headers and
/// data. Claimed: the bytes of the result depend on the data alone.
#[verifier::external_body]
pub(crate) fn blake2_hasher_256(data: &[u8]) -> (digest: [u8; 32])
    ensures
        digest@ == database_hash(data@),
{
    <sp_core::Blake2Hasher as sp_core::Hasher>::hash(data).to_fixed_bytes()
}

} // verus!
