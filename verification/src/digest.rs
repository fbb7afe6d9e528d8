//! The hash functions the node addresses content by.

use vstd::prelude::*;
use crate::keys::Hash160;
use sha2::Digest;

verus! {

/// The SHA-512/256 digest of a byte string.
pub uninterp spec fn sha512_256(data: Seq<u8>) -> Seq<u8>;

/// The SHA-256 digest of a byte string.
pub uninterp spec fn sha256(data: Seq<u8>) -> Seq<u8>;

/// The RIPEMD-160 digest of a byte string.
pub uninterp spec fn ripemd160(data: Seq<u8>) -> Seq<u8>;

/// Calls `sha2::Sha512_256::digest`: the result is the SHA-512/256 digest
/// of the bytes given, which the contract names.
#[verifier::external_body]
pub(crate) fn sha512_256_digest(data: &[u8]) -> (r: [u8; 32])
    ensures
        r@ == sha512_256(data@),
{
    sha2::Sha512_256::digest(data).into()
}

/// Calls `sha2::Sha256::digest`: the result is the SHA-256 digest of the
/// bytes given, which the contract names.
#[verifier::external_body]
pub(crate) fn sha256_digest(data: &[u8]) -> (r: [u8; 32])
    ensures
        r@ == sha256(data@),
{
    sha2::Sha256::digest(data).into()
}

/// Calls `ripemd::Ripemd160::digest`: the result is the RIPEMD-160 digest
/// of the bytes given, which the contract names.
#[verifier::external_body]
pub(crate) fn ripemd160_digest(data: &[u8]) -> (r: [u8; 20])
    ensures
        r@ == ripemd160(data@),
{
    ripemd::Ripemd160::digest(data).into()
}

/// The 20-byte hash content is addressed by: RIPEMD-160 over SHA-256.
pub open spec fn hash160(data: Seq<u8>) -> Seq<u8> {
    ripemd160(sha256(data))
}

/// The content hash of `data`.
pub fn hash160_of(data: &[u8]) -> (r: Hash160)
    ensures
        r@ == hash160(data@),
{
    let inner: [u8; 32] = sha256_digest(data);
    Hash160(ripemd160_digest(inner.as_slice()))
}

} // verus!
