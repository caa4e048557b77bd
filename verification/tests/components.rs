//! Tests of the three structures on their own: the collision-aware store,
//! the capacity-bounded ownership index, and the checked global counter.

use kitty_registry::attributes::Gender;
use kitty_registry::counter::{CounterError, GlobalCounter};
use kitty_registry::index::{IndexError, OwnerIndex};
use kitty_registry::store::{Record, Store, StoreError};

fn record(id: u8, owner: u64) -> Record {
    Record {
        identity: [id; 32],
        owner,
        dna: [id; 16],
        gender: Gender::Male,
        created_at: 0,
    }
}

#[test]
fn store_insert_is_collision_aware() {
    let mut store = Store::new();
    assert_eq!(store.insert(record(1, 10)), Ok(()));
    assert_eq!(store.len(), 1);
    let clash = Record { owner: 99, ..record(1, 10) };
    assert_eq!(store.insert(clash), Err(StoreError::KeyExists));
    assert_eq!(store.len(), 1);
    assert_eq!(store.get(&[1u8; 32]).unwrap().owner, 10);
}

#[test]
fn store_remove_returns_the_record() {
    let mut store = Store::new();
    store.insert(record(1, 10)).unwrap();
    store.insert(record(2, 11)).unwrap();
    let gone = store.remove(&[1u8; 32]).unwrap();
    assert_eq!(gone.owner, 10);
    assert!(store.get(&[1u8; 32]).is_none());
    assert!(store.remove(&[1u8; 32]).is_none());
    assert_eq!(store.len(), 1);
}

#[test]
fn index_append_respects_capacity() {
    let mut index = OwnerIndex::new(2);
    assert_eq!(index.append(5, &[1u8; 32]), Ok(()));
    assert_eq!(index.append(5, &[2u8; 32]), Ok(()));
    assert_eq!(index.append(5, &[3u8; 32]), Err(IndexError::CapacityExceeded));
    assert_eq!(index.owned_count(5), 2);
    assert_eq!(index.append(6, &[3u8; 32]), Ok(()));
    assert_eq!(index.owned_count(6), 1);
}

#[test]
fn index_remove_takes_out_one_holding() {
    let mut index = OwnerIndex::new(4);
    index.append(5, &[1u8; 32]).unwrap();
    index.append(5, &[2u8; 32]).unwrap();
    assert_eq!(index.remove(5, &[1u8; 32]), Ok(()));
    assert_eq!(index.owned_count(5), 1);
    assert_eq!(index.remove(5, &[1u8; 32]), Err(IndexError::NotFound));
    assert_eq!(index.remove(7, &[2u8; 32]), Err(IndexError::NotFound));
}

#[test]
fn counter_checks_its_ceiling() {
    let mut counter = GlobalCounter::new();
    assert_eq!(counter.increment(), Ok(1));
    assert_eq!(counter.increment(), Ok(2));
    assert_eq!(counter.decrement(), 1);
    counter.value = u64::MAX;
    assert_eq!(counter.increment(), Err(CounterError::Overflow));
    assert_eq!(counter.get(), u64::MAX);
}
