//! Attribute generation and identity derivation.
//!
//! A record's attributes (its `dna` and `gender`) are a deterministic
//! function of a caller-supplied seed, a randomness-beacon output sampled
//! with that seed as domain-separation tag, and the ambient sequence tick
//! at which the record is minted.  The record's identity is the 256-bit
//! Blake2 digest of the finished content — attributes included — so two
//! requests with the same caller input but different generated attributes
//! name different records.

use vstd::prelude::*;

use crate::hashing::{blake2_128, blake2_128_of, blake2_256, blake2_256_of};

verus! {

/// Sex of a minted record, decided by the first beacon byte.
#[derive(Clone, Copy, Debug, PartialEq, Eq, Structural)]
pub enum Gender {
    Male,
    Female,
}

/// The little-endian bytes of a 64-bit integer.
pub open spec fn u64_le_bytes(x: u64) -> Seq<u8> {
    seq![
        (x % 256) as u8,
        ((x / 256) % 256) as u8,
        ((x / 65536) % 256) as u8,
        ((x / 16777216) % 256) as u8,
        ((x / 4294967296) % 256) as u8,
        ((x / 1099511627776) % 256) as u8,
        ((x / 281474976710656) % 256) as u8,
        ((x / 72057594037927936) % 256) as u8,
    ]
}

/// The bytes hashed to produce a record's `dna`: the seed, length-prefixed
/// to keep the layout unambiguous, then the beacon output, then the tick.
pub open spec fn payload_bytes(seed: Seq<u8>, beacon: Seq<u8>, context: u64) -> Seq<u8> {
    u64_le_bytes(seed.len() as u64) + seed + beacon + u64_le_bytes(context)
}

/// A record's `dna`: the 128-bit Blake2 digest of the generation payload.
pub open spec fn dna_of(seed: Seq<u8>, beacon: Seq<u8>, context: u64) -> Seq<u8> {
    blake2_128_of(payload_bytes(seed, beacon, context))
}

/// A record's gender: decided by the parity of the first beacon byte.
pub open spec fn gender_of(beacon: Seq<u8>) -> Gender {
    if beacon[0] % 2 == 0 {
        Gender::Male
    } else {
        Gender::Female
    }
}

/// The byte that stands for a gender in the canonical record encoding.
pub open spec fn gender_byte(g: Gender) -> u8 {
    match g {
        Gender::Male => 0,
        Gender::Female => 1,
    }
}

/// The canonical encoding of a record's content: dna, gender byte, owner,
/// creation tick.  The identity is the digest of exactly these bytes.
pub open spec fn content_bytes(dna: Seq<u8>, gender: Gender, owner: u64, created_at: u64) -> Seq<u8> {
    dna + seq![gender_byte(gender)] + u64_le_bytes(owner) + u64_le_bytes(created_at)
}

/// The identity minted for a request: the 256-bit Blake2 digest of the
/// canonical content encoding, attributes included.
pub open spec fn identity_of(owner: u64, seed: Seq<u8>, beacon: Seq<u8>, context: u64) -> Seq<u8> {
    blake2_256_of(
        content_bytes(dna_of(seed, beacon, context), gender_of(beacon), owner, context),
    )
}

/// Appends the little-endian bytes of `x` to `out`.
pub fn push_u64_le(out: &mut Vec<u8>, x: u64)
    ensures
        final(out)@ == old(out)@ + u64_le_bytes(x),
{
    out.push((x % 256) as u8);
    out.push(((x / 256) % 256) as u8);
    out.push(((x / 65536) % 256) as u8);
    out.push(((x / 16777216) % 256) as u8);
    out.push(((x / 4294967296) % 256) as u8);
    out.push(((x / 1099511627776) % 256) as u8);
    out.push(((x / 281474976710656) % 256) as u8);
    out.push(((x / 72057594037927936) % 256) as u8);
    proof {
        assert(out@ =~= old(out)@ + u64_le_bytes(x));
    }
}

/// Builds the generation payload for `dna`: length-prefixed seed, beacon
/// output, tick.
pub fn encode_payload(seed: &Vec<u8>, beacon: &[u8; 32], context: u64) -> (r: Vec<u8>)
    ensures
        r@ == payload_bytes(seed@, beacon@, context),
{
    let mut out: Vec<u8> = Vec::new();
    push_u64_le(&mut out, seed.len() as u64);
    let mut i: usize = 0;
    while i < seed.len()
        invariant
            i <= seed@.len(),
            out@ == u64_le_bytes(seed@.len() as u64) + seed@.subrange(0, i as int),
        decreases seed@.len() - i,
    {
        out.push(seed[i]);
        i = i + 1;
        proof {
            assert(out@ =~= u64_le_bytes(seed@.len() as u64) + seed@.subrange(0, i as int));
        }
    }
    proof {
        assert(seed@.subrange(0, seed@.len() as int) =~= seed@);
    }
    let mut j: usize = 0;
    while j < 32
        invariant
            j <= 32,
            out@ == u64_le_bytes(seed@.len() as u64) + seed@ + beacon@.subrange(0, j as int),
        decreases 32 - j,
    {
        out.push(beacon[j]);
        j = j + 1;
        proof {
            assert(out@ =~= u64_le_bytes(seed@.len() as u64) + seed@ + beacon@.subrange(
                0,
                j as int,
            ));
        }
    }
    proof {
        assert(beacon@.subrange(0, 32) =~= beacon@);
    }
    push_u64_le(&mut out, context);
    proof {
        assert(out@ =~= payload_bytes(seed@, beacon@, context));
    }
    out
}

/// Generates a record's `dna` from the seed, the beacon output sampled with
/// that seed, and the current tick.  Deterministic: identical inputs yield
/// identical attributes.
pub fn gen_dna(seed: &Vec<u8>, beacon: &[u8; 32], context: u64) -> (r: [u8; 16])
    ensures
        r@ == dna_of(seed@, beacon@, context),
{
    let payload = encode_payload(seed, beacon, context);
    blake2_128(&payload)
}

/// Decides a record's gender from the first byte of the beacon output.
pub fn gen_gender(beacon: &[u8; 32]) -> (r: Gender)
    ensures
        r == gender_of(beacon@),
{
    if beacon[0] % 2 == 0 {
        Gender::Male
    } else {
        Gender::Female
    }
}

/// Builds the canonical content encoding of a record.
pub fn encode_content(dna: &[u8; 16], gender: Gender, owner: u64, created_at: u64) -> (r: Vec<u8>)
    ensures
        r@ == content_bytes(dna@, gender, owner, created_at),
{
    let mut out: Vec<u8> = Vec::new();
    let mut i: usize = 0;
    while i < 16
        invariant
            i <= 16,
            out@ == dna@.subrange(0, i as int),
        decreases 16 - i,
    {
        out.push(dna[i]);
        i = i + 1;
        proof {
            assert(out@ =~= dna@.subrange(0, i as int));
        }
    }
    proof {
        assert(dna@.subrange(0, 16) =~= dna@);
    }
    match gender {
        Gender::Male => out.push(0),
        Gender::Female => out.push(1),
    }
    proof {
        assert(out@ =~= dna@ + seq![gender_byte(gender)]);
    }
    push_u64_le(&mut out, owner);
    push_u64_le(&mut out, created_at);
    proof {
        assert(out@ =~= content_bytes(dna@, gender, owner, created_at));
    }
    out
}

/// Derives the identity of the record a request would mint: the digest of
/// the finished content, so that different generated attributes or a
/// different tick name a different record.
pub fn derive_identity(owner: u64, seed: &Vec<u8>, beacon: &[u8; 32], context: u64) -> (r: [u8;
    32])
    ensures
        r@ == identity_of(owner, seed@, beacon@, context),
{
    let dna = gen_dna(seed, beacon, context);
    let gender = gen_gender(beacon);
    let content = encode_content(&dna, gender, owner, context);
    blake2_256(&content)
}

} // verus!
