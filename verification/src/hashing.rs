//! Trusted access to the Blake2 hash functions of `sp_io`.
//!
//! The digests themselves are not written out here: each is given a name
//! (`blake2_128_of`, `blake2_256_of`), a function of the input bytes alone,
//! and the rest of the crate reasons about identities and attributes through
//! those names.

use vstd::prelude::*;

verus! {

/// The 128-bit Blake2 digest of a byte string, as computed by
/// `sp_io::hashing::blake2_128`: a function of the bytes alone.
pub uninterp spec fn blake2_128_of(data: Seq<u8>) -> Seq<u8>;

/// The 256-bit Blake2 digest of a byte string, as computed by
/// `sp_io::hashing::blake2_256`: a function of the bytes alone.
pub uninterp spec fn blake2_256_of(data: Seq<u8>) -> Seq<u8>;

/// Relies on `sp_io::hashing::blake2_128`: a 16-byte Blake2 digest,
/// determined by `data` alone.
#[verifier::external_body]
pub(crate) fn blake2_128(data: &Vec<u8>) -> (r: [u8; 16])
    ensures
        r@ == blake2_128_of(data@),
        r@.len() == 16,
{
    sp_io::hashing::blake2_128(data.as_slice())
}

/// Relies on `sp_io::hashing::blake2_256`: a 32-byte Blake2 digest,
/// determined by `data` alone.
#[verifier::external_body]
pub(crate) fn blake2_256(data: &Vec<u8>) -> (r: [u8; 32])
    ensures
        r@ == blake2_256_of(data@),
        r@.len() == 32,
{
    sp_io::hashing::blake2_256(data.as_slice())
}

} // verus!
