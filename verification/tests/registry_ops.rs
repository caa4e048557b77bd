//! End-to-end tests of the registration engine: capacity and overflow
//! boundaries, collision handling, removal authorization, and the
//! determinism of attribute generation, cross-checked against the real
//! Blake2 implementation.

use kitty_registry::attributes::{
    derive_identity, encode_content, encode_payload, gen_dna, gen_gender, Gender,
};
use kitty_registry::counter::GlobalCounter;
use kitty_registry::registry::{MintError, Registry, RemoveError};

fn beacon_with_first(b0: u8) -> [u8; 32] {
    let mut beacon = [7u8; 32];
    beacon[0] = b0;
    beacon
}

#[test]
fn capacity_boundary_two_succeed_third_rejected() {
    let mut r = Registry::new(2);
    let seed = vec![1u8, 2, 3];
    let beacon = beacon_with_first(0);
    let first = r.create(42, &seed, &beacon, 0);
    let second = r.create(42, &seed, &beacon, 1);
    assert!(first.is_ok());
    assert!(second.is_ok());
    let third = r.create(42, &seed, &beacon, 2);
    assert_eq!(third, Err(MintError::OwnershipLimitExceeded));
    assert_eq!(r.owned_count(42), 2);
    assert_eq!(r.total(), 2);
    assert!(r.get(&first.unwrap()).is_some());
    assert!(r.get(&second.unwrap()).is_some());
}

#[test]
fn max_owned_zero_always_rejects() {
    let mut r = Registry::new(0);
    let seed = vec![9u8];
    let beacon = beacon_with_first(4);
    let res = r.create(1, &seed, &beacon, 0);
    assert_eq!(res, Err(MintError::OwnershipLimitExceeded));
    assert_eq!(r.total(), 0);
}

#[test]
fn counter_overflow_rejected_and_nothing_stored() {
    let mut r = Registry::new(4);
    r.counter = GlobalCounter { value: u64::MAX };
    let seed = vec![5u8];
    let beacon = beacon_with_first(2);
    let res = r.create(3, &seed, &beacon, 0);
    assert_eq!(res, Err(MintError::CounterOverflow));
    assert_eq!(r.total(), u64::MAX);
    assert_eq!(r.owned_count(3), 0);
    let id = derive_identity(3, &seed, &beacon, 0);
    assert!(r.get(&id).is_none());
}

#[test]
fn identical_request_collides_and_state_is_kept() {
    let mut r = Registry::new(4);
    let seed = vec![8u8, 8];
    let beacon = beacon_with_first(1);
    let first = r.create(5, &seed, &beacon, 11);
    assert!(first.is_ok());
    let again = r.create(5, &seed, &beacon, 11);
    assert_eq!(again, Err(MintError::IdentityCollision));
    assert_eq!(r.total(), 1);
    assert_eq!(r.owned_count(5), 1);
}

#[test]
fn remove_by_non_owner_rejected_by_owner_applied() {
    let mut r = Registry::new(4);
    let seed = vec![3u8];
    let beacon = beacon_with_first(6);
    let id = r.create(7, &seed, &beacon, 0).unwrap();
    let wrong = r.remove(8, &id);
    assert_eq!(wrong, Err(RemoveError::NotOwner));
    assert_eq!(r.total(), 1);
    assert_eq!(r.owned_count(7), 1);
    assert!(r.get(&id).is_some());
    let right = r.remove(7, &id);
    assert_eq!(right, Ok(()));
    assert_eq!(r.total(), 0);
    assert_eq!(r.owned_count(7), 0);
    assert!(r.get(&id).is_none());
}

#[test]
fn remove_of_unknown_identity_is_not_found() {
    let mut r = Registry::new(4);
    let id = [0u8; 32];
    assert_eq!(r.remove(1, &id), Err(RemoveError::NotFound));
    assert_eq!(r.total(), 0);
}

#[test]
fn attributes_deterministic_for_identical_inputs() {
    let seed = vec![1u8, 2, 3, 4];
    let beacon = beacon_with_first(10);
    assert_eq!(gen_dna(&seed, &beacon, 9), gen_dna(&seed, &beacon, 9));
    assert_eq!(gen_gender(&beacon), gen_gender(&beacon));
    assert_eq!(derive_identity(6, &seed, &beacon, 9), derive_identity(6, &seed, &beacon, 9));
}

#[test]
fn later_tick_yields_different_identity() {
    let seed = vec![1u8, 2, 3, 4];
    let beacon = beacon_with_first(10);
    assert_ne!(gen_dna(&seed, &beacon, 9), gen_dna(&seed, &beacon, 10));
    assert_ne!(derive_identity(6, &seed, &beacon, 9), derive_identity(6, &seed, &beacon, 10));
}

#[test]
fn payload_layout_and_dna_match_blake2() {
    let seed = vec![0xaau8, 0xbb];
    let beacon = beacon_with_first(3);
    let context: u64 = 0x0102030405060708;
    let mut expected: Vec<u8> = Vec::new();
    expected.extend_from_slice(&(seed.len() as u64).to_le_bytes());
    expected.extend_from_slice(&seed);
    expected.extend_from_slice(&beacon);
    expected.extend_from_slice(&context.to_le_bytes());
    assert_eq!(encode_payload(&seed, &beacon, context), expected);
    let dna = gen_dna(&seed, &beacon, context);
    assert_eq!(dna, sp_io::hashing::blake2_128(&expected));
}

#[test]
fn identity_matches_blake2_of_content() {
    let seed = vec![1u8];
    let beacon = beacon_with_first(2);
    let owner: u64 = 77;
    let context: u64 = 5;
    let dna = gen_dna(&seed, &beacon, context);
    let gender = gen_gender(&beacon);
    let mut expected: Vec<u8> = Vec::new();
    expected.extend_from_slice(&dna);
    expected.push(match gender {
        Gender::Male => 0,
        Gender::Female => 1,
    });
    expected.extend_from_slice(&owner.to_le_bytes());
    expected.extend_from_slice(&context.to_le_bytes());
    assert_eq!(encode_content(&dna, gender, owner, context), expected);
    assert_eq!(derive_identity(owner, &seed, &beacon, context), sp_io::hashing::blake2_256(&expected));
}

#[test]
fn gender_follows_beacon_parity_into_the_record() {
    let mut r = Registry::new(4);
    let seed = vec![2u8];
    let even = beacon_with_first(0);
    let odd = beacon_with_first(1);
    assert_eq!(gen_gender(&even), Gender::Male);
    assert_eq!(gen_gender(&odd), Gender::Female);
    let id_even = r.create(1, &seed, &even, 0).unwrap();
    let id_odd = r.create(1, &seed, &odd, 0).unwrap();
    assert_eq!(r.get(&id_even).unwrap().gender, Gender::Male);
    assert_eq!(r.get(&id_odd).unwrap().gender, Gender::Female);
    assert_eq!(r.get(&id_even).unwrap().owner, 1);
    assert_eq!(r.get(&id_even).unwrap().created_at, 0);
}

#[test]
fn successful_creates_return_pairwise_distinct_identities() {
    let mut r = Registry::new(8);
    let beacon = beacon_with_first(12);
    let mut ids: Vec<[u8; 32]> = Vec::new();
    for owner in 0u64..4 {
        for context in 0u64..4 {
            let seed = vec![owner as u8];
            ids.push(r.create(owner, &seed, &beacon, context).unwrap());
        }
    }
    for i in 0..ids.len() {
        for j in (i + 1)..ids.len() {
            assert_ne!(ids[i], ids[j]);
        }
    }
    assert_eq!(r.total(), 16);
}

#[test]
fn counter_tracks_live_records_across_creates_and_removes() {
    let mut r = Registry::new(8);
    let beacon = beacon_with_first(5);
    let seed = vec![1u8];
    let a = r.create(1, &seed, &beacon, 0).unwrap();
    let b = r.create(1, &seed, &beacon, 1).unwrap();
    let c = r.create(2, &seed, &beacon, 2).unwrap();
    assert_eq!(r.total(), 3);
    assert_eq!(r.remove(1, &a), Ok(()));
    assert_eq!(r.total(), 2);
    assert!(r.get(&b).is_some());
    assert!(r.get(&c).is_some());
    assert_eq!(r.owned_count(1), 1);
    assert_eq!(r.owned_count(2), 1);
}
