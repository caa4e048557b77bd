//! The Registration Coordinator: one atomic `create` / `remove` against
//! the store, the ownership index and the global counter.
//!
//! Each operation is all-or-nothing: every check precedes every mutation,
//! so a rejected call leaves the three structures exactly as they were.
//! The coordinator's contracts are stated against the spec-level
//! transition (`create_result` / `create_post`, `remove_result` /
//! `remove_post`) over the registry's mathematical value, and the
//! registry invariant ties the three structures together: the counter
//! equals the number of live records, every indexed identity is live with
//! the matching owner, every live record is indexed, holdings are
//! duplicate-free and capacity-bounded.

use vstd::prelude::*;

use crate::attributes::{dna_of, gen_dna, gen_gender, gender_of, identity_of, encode_content};
use crate::counter::GlobalCounter;
use crate::hashing::blake2_256;
use crate::index::{owned_of, OwnerIndex};
use crate::store::{Record, RecordView, Store};

verus! {

/// Why a mint was refused.
#[derive(Clone, Copy, Debug, PartialEq, Eq, Structural)]
pub enum MintError {
    /// The owner already holds `max_owned` records.
    OwnershipLimitExceeded,
    /// The global counter is at the ceiling of its type.
    CounterOverflow,
    /// The derived identity already names a live record.
    IdentityCollision,
}

/// Why a removal was refused.
#[derive(Clone, Copy, Debug, PartialEq, Eq, Structural)]
pub enum RemoveError {
    /// No live record carries the identity.
    NotFound,
    /// The record exists but belongs to another account.
    NotOwner,
}

/// The registry's mathematical value: the three structures side by side.
#[verifier::ext_equal]
pub struct RegistryView {
    pub records: Map<Seq<u8>, RecordView>,
    pub owned: Map<u64, Seq<Seq<u8>>>,
    pub counter: u64,
    pub max_owned: nat,
}

/// The invariant that every quiescent registry state satisfies.
pub open spec fn registry_inv(v: RegistryView) -> bool {
    &&& v.records.dom().finite()
    &&& v.counter == v.records.dom().len()
    &&& forall|o: u64, j: int|
        v.owned.contains_key(o) && 0 <= j < v.owned[o].len() ==> v.records.contains_key(
            #[trigger] v.owned[o][j],
        ) && v.records[v.owned[o][j]].owner == o
    &&& forall|id: Seq<u8>| #[trigger] v.records.contains_key(id) ==> v.records[id].identity
        == id
    &&& forall|id: Seq<u8>| #[trigger] v.records.contains_key(id) ==> owned_of(
        v.owned,
        v.records[id].owner,
    ).contains(id)
    &&& forall|o: u64, j: int, k: int|
        v.owned.contains_key(o) && 0 <= j < k < v.owned[o].len() ==> #[trigger] v.owned[o][j]
            != #[trigger] v.owned[o][k]
    &&& forall|o: u64|
        v.owned.contains_key(o) ==> #[trigger] v.owned[o].len() <= v.max_owned
}

/// The record a successful request mints.
pub open spec fn minted_record(owner: u64, seed: Seq<u8>, beacon: Seq<u8>, context: u64) -> RecordView {
    RecordView {
        identity: identity_of(owner, seed, beacon, context),
        owner,
        dna: dna_of(seed, beacon, context),
        gender: gender_of(beacon),
        created_at: context,
    }
}

/// What `create` returns: the derived identity, or the first rejection in
/// the order capacity, counter ceiling, identity collision.
pub open spec fn create_result(
    v: RegistryView,
    owner: u64,
    seed: Seq<u8>,
    beacon: Seq<u8>,
    context: u64,
) -> Result<Seq<u8>, MintError> {
    let id = identity_of(owner, seed, beacon, context);
    if owned_of(v.owned, owner).len() >= v.max_owned {
        Err(MintError::OwnershipLimitExceeded)
    } else if v.counter == u64::MAX {
        Err(MintError::CounterOverflow)
    } else if v.records.contains_key(id) {
        Err(MintError::IdentityCollision)
    } else {
        Ok(id)
    }
}

/// The state after `create`: all three structures advance together, or
/// none does.
pub open spec fn create_post(
    v: RegistryView,
    owner: u64,
    seed: Seq<u8>,
    beacon: Seq<u8>,
    context: u64,
) -> RegistryView {
    if create_result(v, owner, seed, beacon, context) is Ok {
        let id = identity_of(owner, seed, beacon, context);
        RegistryView {
            records: v.records.insert(id, minted_record(owner, seed, beacon, context)),
            owned: v.owned.insert(owner, owned_of(v.owned, owner).push(id)),
            counter: (v.counter + 1) as u64,
            max_owned: v.max_owned,
        }
    } else {
        v
    }
}

/// What `remove` returns: existence is checked first, then ownership.
pub open spec fn remove_result(v: RegistryView, caller: u64, id: Seq<u8>) -> Result<
    (),
    RemoveError,
> {
    if !v.records.contains_key(id) {
        Err(RemoveError::NotFound)
    } else if v.records[id].owner != caller {
        Err(RemoveError::NotOwner)
    } else {
        Ok(())
    }
}

/// The state after `remove`: all three structures retreat together, or
/// none does.
pub open spec fn remove_post(v: RegistryView, caller: u64, id: Seq<u8>) -> RegistryView {
    if remove_result(v, caller, id) is Ok {
        let owner = v.records[id].owner;
        RegistryView {
            records: v.records.remove(id),
            owned: v.owned.insert(owner, owned_of(v.owned, owner).remove_value(id)),
            counter: (v.counter - 1) as u64,
            max_owned: v.max_owned,
        }
    } else {
        v
    }
}

/// A `create` step keeps the registry invariant.
pub proof fn lemma_create_maintains_inv(
    v: RegistryView,
    owner: u64,
    seed: Seq<u8>,
    beacon: Seq<u8>,
    context: u64,
)
    requires
        registry_inv(v),
    ensures
        registry_inv(create_post(v, owner, seed, beacon, context)),
{
    broadcast use vstd::set::group_set_axioms;

    if create_result(v, owner, seed, beacon, context) is Ok {
        let id = identity_of(owner, seed, beacon, context);
        let rec = minted_record(owner, seed, beacon, context);
        let w = create_post(v, owner, seed, beacon, context);
        let held = owned_of(v.owned, owner);
        assert(w.records.dom() =~= v.records.dom().insert(id));
        assert(w.counter == w.records.dom().len());
        assert forall|o: u64, j: int|
            w.owned.contains_key(o) && 0 <= j < w.owned[o].len() implies w.records.contains_key(
            #[trigger] w.owned[o][j],
        ) && w.records[w.owned[o][j]].owner == o by {
            if o == owner {
                if j < held.len() {
                    assert(w.owned[o][j] == held[j]);
                    if v.owned.contains_key(owner) {
                        assert(v.records.contains_key(held[j]));
                        assert(held[j] != id);
                    }
                } else {
                    assert(w.owned[o][j] == id);
                }
            } else {
                assert(w.owned[o] == v.owned[o]);
                assert(v.records.contains_key(v.owned[o][j]));
                assert(v.owned[o][j] != id);
            }
        }
        assert forall|e: Seq<u8>| #[trigger] w.records.contains_key(e) implies owned_of(
            w.owned,
            w.records[e].owner,
        ).contains(e) by {
            if e == id {
                assert(owned_of(w.owned, owner)[held.len() as int] == id);
            } else {
                assert(v.records.contains_key(e));
                let o = v.records[e].owner;
                assert(owned_of(v.owned, o).contains(e));
                let k = choose|k: int|
                    0 <= k < owned_of(v.owned, o).len() && owned_of(v.owned, o)[k] == e;
                if o == owner {
                    assert(owned_of(w.owned, o)[k] == e);
                } else {
                    assert(owned_of(w.owned, o) == owned_of(v.owned, o));
                }
            }
        }
        assert forall|o: u64, j: int, k: int|
            w.owned.contains_key(o) && 0 <= j < k < w.owned[o].len() implies #[trigger] w.owned[o][j]
            != #[trigger] w.owned[o][k] by {
            if o == owner {
                if k < held.len() {
                    assert(w.owned[o][j] == held[j] && w.owned[o][k] == held[k]);
                } else {
                    assert(w.owned[o][k] == id);
                    assert(w.owned[o][j] == held[j]);
                    if v.owned.contains_key(owner) {
                        assert(v.records.contains_key(held[j]));
                        assert(held[j] != id);
                    }
                }
            } else {
                assert(w.owned[o] == v.owned[o]);
            }
        }
        assert forall|o: u64| w.owned.contains_key(o) implies #[trigger] w.owned[o].len()
            <= w.max_owned by {
            if o != owner {
                assert(w.owned[o] == v.owned[o]);
            }
        }
    }
}

/// A `remove` step keeps the registry invariant.
pub proof fn lemma_remove_maintains_inv(v: RegistryView, caller: u64, id: Seq<u8>)
    requires
        registry_inv(v),
    ensures
        registry_inv(remove_post(v, caller, id)),
{
    broadcast use vstd::set::group_set_axioms;

    if remove_result(v, caller, id) is Ok {
        let owner = v.records[id].owner;
        let held = owned_of(v.owned, owner);
        let w = remove_post(v, caller, id);
        assert(held.contains(id));
        held.index_of_first_ensures(id);
        let f = held.index_of_first(id)->Some_0;
        held.remove_ensures(f);
        let held2 = held.remove_value(id);
        assert(held2 == held.remove(f));
        assert(w.records.dom() =~= v.records.dom().remove(id));
        assert(w.counter == w.records.dom().len());
        assert forall|o: u64, j: int|
            w.owned.contains_key(o) && 0 <= j < w.owned[o].len() implies w.records.contains_key(
            #[trigger] w.owned[o][j],
        ) && w.records[w.owned[o][j]].owner == o by {
            if o == owner {
                let j0 = if j < f {
                    j
                } else {
                    j + 1
                };
                assert(w.owned[o][j] == held[j0]);
                assert(v.records.contains_key(held[j0]));
                assert(held[j0] != id);
            } else {
                assert(w.owned[o] == v.owned[o]);
                let e = v.owned[o][j];
                assert(v.records.contains_key(e));
                assert(v.records[e].owner == o);
                assert(e != id);
            }
        }
        assert forall|e: Seq<u8>| #[trigger] w.records.contains_key(e) implies owned_of(
            w.owned,
            w.records[e].owner,
        ).contains(e) by {
            assert(v.records.contains_key(e));
            assert(e != id);
            let o = v.records[e].owner;
            assert(owned_of(v.owned, o).contains(e));
            let k = choose|k: int| 0 <= k < owned_of(v.owned, o).len() && owned_of(v.owned, o)[k]
                == e;
            if o == owner {
                assert(k != f);
                if k < f {
                    assert(held2[k] == held[k]);
                } else {
                    assert(held2[k - 1] == held[k]);
                }
            } else {
                assert(owned_of(w.owned, o) == owned_of(v.owned, o));
            }
        }
        assert forall|o: u64, j: int, k: int|
            w.owned.contains_key(o) && 0 <= j < k < w.owned[o].len() implies #[trigger] w.owned[o][j]
            != #[trigger] w.owned[o][k] by {
            if o == owner {
                let j0 = if j < f {
                    j
                } else {
                    j + 1
                };
                let k0 = if k < f {
                    k
                } else {
                    k + 1
                };
                assert(w.owned[o][j] == held[j0] && w.owned[o][k] == held[k0]);
            } else {
                assert(w.owned[o] == v.owned[o]);
            }
        }
        assert forall|o: u64| w.owned.contains_key(o) implies #[trigger] w.owned[o].len()
            <= w.max_owned by {
            if o != owner {
                assert(w.owned[o] == v.owned[o]);
            }
        }
    }
}

/// The registration engine: exclusive owner of the store, the index and
/// the counter for the whole of each transaction.
pub struct Registry {
    pub store: Store,
    pub owned: OwnerIndex,
    pub counter: GlobalCounter,
}

impl View for Registry {
    type V = RegistryView;

    open spec fn view(&self) -> RegistryView {
        RegistryView {
            records: self.store@,
            owned: self.owned@,
            counter: self.counter.value,
            max_owned: self.owned.max_spec(),
        }
    }
}

impl Registry {
    /// The representation invariants of the parts, and the registry
    /// invariant over their joint value.
    pub open spec fn wf(self) -> bool {
        &&& self.store.wf()
        &&& self.owned.wf()
        &&& registry_inv(self@)
    }

    /// An empty registry whose owners may hold at most `max_owned`
    /// records each.
    pub fn new(max_owned: usize) -> (r: Registry)
        ensures
            r.wf(),
            r@.records == Map::<Seq<u8>, RecordView>::empty(),
            r@.owned == Map::<u64, Seq<Seq<u8>>>::empty(),
            r@.counter == 0,
            r@.max_owned == max_owned,
    {
        let r = Registry {
            store: Store::new(),
            owned: OwnerIndex::new(max_owned),
            counter: GlobalCounter::new(),
        };
        proof {
            broadcast use vstd::set::group_set_axioms;

            assert(r@.records.dom() =~= Set::<Seq<u8>>::empty());
        }
        r
    }

    /// The number of live records.
    pub fn total(&self) -> (r: u64)
        ensures
            r == self@.counter,
    {
        self.counter.get()
    }

    /// The capacity bound each owner's holdings respect.
    pub fn max_owned(&self) -> (r: usize)
        ensures
            r == self@.max_owned,
    {
        self.owned.max_owned
    }

    /// How many records `owner` holds.
    pub fn owned_count(&self, owner: u64) -> (r: usize)
        requires
            self.wf(),
        ensures
            r == owned_of(self@.owned, owner).len(),
    {
        self.owned.owned_count(owner)
    }

    /// Looks a live record up by identity.
    pub fn get(&self, identity: &[u8; 32]) -> (r: Option<&Record>)
        requires
            self.wf(),
        ensures
            match r {
                Some(rec) => self@.records.contains_key(identity@) && rec@ == self@.records[identity@],
                None => !self@.records.contains_key(identity@),
            },
    {
        self.store.get(identity)
    }

    /// Mints a record for `owner`: derives the attributes and the
    /// identity from the seed, the beacon output and the current tick,
    /// then applies store insert, index append and counter bump as one
    /// atomic unit — or rejects and changes nothing.
    pub fn create(&mut self, owner: u64, seed: &Vec<u8>, beacon: &[u8; 32], context: u64) -> (r:
        Result<[u8; 32], MintError>)
        requires
            old(self).wf(),
        ensures
            final(self).wf(),
            final(self)@ == create_post(old(self)@, owner, seed@, beacon@, context),
            match r {
                Ok(id) => id@ == identity_of(owner, seed@, beacon@, context) && create_result(
                    old(self)@,
                    owner,
                    seed@,
                    beacon@,
                    context,
                ) == Ok::<Seq<u8>, MintError>(id@),
                Err(e) => create_result(old(self)@, owner, seed@, beacon@, context) == Err::<
                    Seq<u8>,
                    MintError,
                >(e) && *final(self) == *old(self),
            },
    {
        let held = self.owned.owned_count(owner);
        if held >= self.owned.max_owned {
            return Err(MintError::OwnershipLimitExceeded);
        }
        if self.counter.get() == u64::MAX {
            return Err(MintError::CounterOverflow);
        }
        let dna = gen_dna(seed, beacon, context);
        let gender = gen_gender(beacon);
        let content = encode_content(&dna, gender, owner, context);
        let identity = blake2_256(&content);
        proof {
            assert(identity@ == identity_of(owner, seed@, beacon@, context));
        }
        match self.store.get(&identity) {
            Some(_) => {
                return Err(MintError::IdentityCollision);
            },
            None => {},
        }
        let record = Record { identity, owner, dna, gender, created_at: context };
        match self.owned.append(owner, &identity) {
            Ok(_) => {},
            Err(_) => {
                proof {
                    assert(false);
                }
                return Err(MintError::OwnershipLimitExceeded);
            },
        }
        match self.counter.increment() {
            Ok(_) => {},
            Err(_) => {
                proof {
                    assert(false);
                }
                return Err(MintError::CounterOverflow);
            },
        }
        match self.store.insert(record) {
            Ok(_) => {},
            Err(_) => {
                proof {
                    assert(false);
                }
                return Err(MintError::IdentityCollision);
            },
        }
        proof {
            lemma_create_maintains_inv(old(self)@, owner, seed@, beacon@, context);
            assert(record@ == minted_record(owner, seed@, beacon@, context));
            assert(self@ =~= create_post(old(self)@, owner, seed@, beacon@, context));
        }
        Ok(identity)
    }

    /// Removes the record at `identity` when the caller owns it: store
    /// removal, index removal and counter decrement as one atomic unit —
    /// or rejects and changes nothing.  Existence is checked first, then
    /// ownership.
    pub fn remove(&mut self, caller: u64, identity: &[u8; 32]) -> (r: Result<(), RemoveError>)
        requires
            old(self).wf(),
        ensures
            final(self).wf(),
            final(self)@ == remove_post(old(self)@, caller, identity@),
            match r {
                Ok(u) => remove_result(old(self)@, caller, identity@) == Ok::<(), RemoveError>(u),
                Err(e) => remove_result(old(self)@, caller, identity@) == Err::<(), RemoveError>(e)
                    && *final(self) == *old(self),
            },
    {
        let owner: u64 = match self.store.get(identity) {
            None => {
                return Err(RemoveError::NotFound);
            },
            Some(rec) => {
                if rec.owner != caller {
                    return Err(RemoveError::NotOwner);
                }
                rec.owner
            },
        };
        proof {
            broadcast use vstd::set::group_set_axioms;

            assert(owned_of(self@.owned, owner).contains(identity@));
            assert(self@.records.dom().contains(identity@));
        }
        let _removed = self.store.remove(identity);
        match self.owned.remove(owner, identity) {
            Ok(_) => {},
            Err(_) => {
                proof {
                    assert(false);
                }
                return Err(RemoveError::NotFound);
            },
        }
        self.counter.decrement();
        proof {
            lemma_remove_maintains_inv(old(self)@, caller, identity@);
            assert(self@ =~= remove_post(old(self)@, caller, identity@));
        }
        Ok(())
    }
}

} // verus!
