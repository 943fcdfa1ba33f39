//! The cryptographic digests the engine uses, called from the sha3 and
//! tiny-keccak crates. Their outputs are named, not described: each is a
//! function of the input bytes alone.
use vstd::prelude::*;

use sha3::Digest;
use tiny_keccak::Hasher;

verus! {

/// The SHA3-256 digest of `data`.
pub uninterp spec fn sha3_256_of(data: Seq<u8>) -> Seq<u8>;

/// The Keccak-256 digest of `data`.
pub uninterp spec fn keccak256_of(data: Seq<u8>) -> Seq<u8>;

/// Relies on `sha3::Sha3_256::digest`: the 32-byte SHA3-256 digest of `data`,
/// which depends on the bytes alone.
#[verifier::external_body]
pub(crate) fn sha3_256(data: &[u8]) -> (r: [u8; 32])
    ensures
        r@ == sha3_256_of(data@),
{
    sha3::Sha3_256::digest(data).into()
}

/// Relies on `tiny_keccak::Keccak::v256` with `update` and `finalize`: the
/// 32-byte Keccak-256 digest of `data`, which depends on the bytes alone.
#[verifier::external_body]
pub(crate) fn keccak256(data: &[u8]) -> (r: [u8; 32])
    ensures
        r@ == keccak256_of(data@),
{
    let mut hasher = tiny_keccak::Keccak::v256();
    hasher.update(data);
    let mut out = [0u8; 32];
    hasher.finalize(&mut out);
    out
}

} // verus!
