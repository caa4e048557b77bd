//! The Ownership Index: one capacity-bounded sequence of identities per
//! owning account, in insertion order.
//!
//! `append` refuses to grow a sequence past `max_owned` and mutates nothing
//! when it refuses; `remove` takes out the first occurrence of an identity.
//! The index's mathematical value is the map from owner to its sequence.

use vstd::prelude::*;

use crate::store::bytes_equal_32;

verus! {

/// Why an index operation was refused.
#[derive(Clone, Copy, Debug, PartialEq, Eq, Structural)]
pub enum IndexError {
    /// The owner already holds `max_owned` identities.
    CapacityExceeded,
    /// The identity is not among the owner's holdings.
    NotFound,
}

/// The holdings of one owner.
pub struct OwnerEntry {
    pub owner: u64,
    pub ids: Vec<[u8; 32]>,
}

/// The mathematical value of an owner's holdings.
#[verifier::ext_equal]
pub struct EntryView {
    pub owner: u64,
    pub ids: Seq<Seq<u8>>,
}

impl View for OwnerEntry {
    type V = EntryView;

    open spec fn view(&self) -> EntryView {
        EntryView { owner: self.owner, ids: self.ids@.map_values(|x: [u8; 32]| x@) }
    }
}

/// No two entries of the sequence belong to the same owner.
pub open spec fn unique_owners(s: Seq<EntryView>) -> bool {
    forall|i: int, j: int| 0 <= i < j < s.len() ==> #[trigger] s[i].owner != #[trigger] s[j].owner
}

/// The owner→holdings map that a sequence of entries denotes.
pub open spec fn owner_map(s: Seq<EntryView>) -> Map<u64, Seq<Seq<u8>>>
    decreases s.len(),
{
    if s.len() == 0 {
        Map::empty()
    } else {
        owner_map(s.drop_last()).insert(s.last().owner, s.last().ids)
    }
}

/// The holdings recorded for `owner`: its sequence when present, else empty.
pub open spec fn owned_of(m: Map<u64, Seq<Seq<u8>>>, owner: u64) -> Seq<Seq<u8>> {
    if m.contains_key(owner) {
        m[owner]
    } else {
        Seq::empty()
    }
}

/// An owner is a key of `owner_map(s)` exactly when some entry of `s` is
/// its own.
pub proof fn lemma_owner_map_membership(s: Seq<EntryView>)
    ensures
        forall|o: u64|
            #[trigger] owner_map(s).contains_key(o) <==> (exists|i: int|
                0 <= i < s.len() && #[trigger] s[i].owner == o),
    decreases s.len(),
{
    if s.len() > 0 {
        lemma_owner_map_membership(s.drop_last());
        assert forall|o: u64| #[trigger] owner_map(s).contains_key(o) implies (exists|i: int|
            0 <= i < s.len() && #[trigger] s[i].owner == o) by {
            if o == s.last().owner {
                assert(s[s.len() - 1].owner == o);
            } else {
                assert(owner_map(s.drop_last()).contains_key(o));
                let i = choose|i: int|
                    0 <= i < s.drop_last().len() && #[trigger] s.drop_last()[i].owner == o;
                assert(s.drop_last()[i] == s[i]);
                assert(s[i].owner == o);
            }
        }
        assert forall|o: u64|
            (exists|i: int|
                0 <= i < s.len() && #[trigger] s[i].owner == o) implies #[trigger] owner_map(
            s,
        ).contains_key(o) by {
            let i = choose|i: int| 0 <= i < s.len() && #[trigger] s[i].owner == o;
            if i < s.len() - 1 {
                assert(s.drop_last()[i] == s[i]);
                assert(s.drop_last()[i].owner == o);
                assert(owner_map(s.drop_last()).contains_key(o));
            } else {
                assert(s.last().owner == o);
            }
        }
    }
}

/// With pairwise-distinct owners, the map sends each entry's owner to that
/// entry's holdings.
pub proof fn lemma_owner_map_index(s: Seq<EntryView>, i: int)
    requires
        unique_owners(s),
        0 <= i < s.len(),
    ensures
        owner_map(s).contains_key(s[i].owner),
        owner_map(s)[s[i].owner] == s[i].ids,
    decreases s.len(),
{
    if i == s.len() - 1 {
    } else {
        assert(unique_owners(s.drop_last()));
        assert(s.drop_last()[i] == s[i]);
        lemma_owner_map_index(s.drop_last(), i);
        assert(s[i].owner != s.last().owner);
    }
}

/// Replacing the holdings of the entry at `i` updates exactly that owner's
/// key in the map.
pub proof fn lemma_owner_map_update(s: Seq<EntryView>, i: int, e2: EntryView)
    requires
        unique_owners(s),
        0 <= i < s.len(),
        e2.owner == s[i].owner,
    ensures
        unique_owners(s.update(i, e2)),
        owner_map(s.update(i, e2)) == owner_map(s).insert(e2.owner, e2.ids),
{
    let t = s.update(i, e2);
    assert(forall|k: int| 0 <= k < s.len() ==> #[trigger] t[k].owner == s[k].owner);
    lemma_owner_map_membership(s);
    lemma_owner_map_membership(t);
    assert forall|o: u64| #[trigger] owner_map(t).contains_key(o) implies owner_map(s).insert(
        e2.owner,
        e2.ids,
    ).contains_key(o) && owner_map(t)[o] == owner_map(s).insert(e2.owner, e2.ids)[o] by {
        let k = choose|k: int| 0 <= k < t.len() && #[trigger] t[k].owner == o;
        lemma_owner_map_index(t, k);
        if o == e2.owner {
            assert(k == i);
            assert(t[i] == e2);
        } else {
            assert(k != i);
            assert(t[k] == s[k]);
            lemma_owner_map_index(s, k);
        }
    }
    assert forall|o: u64| #[trigger] owner_map(s).insert(e2.owner, e2.ids).contains_key(
        o,
    ) implies owner_map(t).contains_key(o) by {
        if o == e2.owner {
            assert(t[i].owner == o);
        } else {
            let k = choose|k: int| 0 <= k < s.len() && #[trigger] s[k].owner == o;
            assert(t[k].owner == o);
        }
    }
    assert(owner_map(t) =~= owner_map(s).insert(e2.owner, e2.ids));
}

/// The per-owner bounded index.
pub struct OwnerIndex {
    pub max_owned: usize,
    pub entries: Vec<OwnerEntry>,
}

impl View for OwnerIndex {
    type V = Map<u64, Seq<Seq<u8>>>;

    open spec fn view(&self) -> Map<u64, Seq<Seq<u8>>> {
        owner_map(self.evs())
    }
}

impl OwnerIndex {
    /// The entries as mathematical values, in insertion order.
    pub open spec fn evs(self) -> Seq<EntryView> {
        self.entries@.map_values(|e: OwnerEntry| e@)
    }

    /// Representation invariant: one entry per owner.
    pub open spec fn wf(self) -> bool {
        unique_owners(self.evs())
    }

    /// The capacity bound every owner's holdings respect.
    pub open spec fn max_spec(self) -> nat {
        self.max_owned as nat
    }

    /// An empty index with the given capacity bound.
    pub fn new(max_owned: usize) -> (r: OwnerIndex)
        ensures
            r.wf(),
            r@ == Map::<u64, Seq<Seq<u8>>>::empty(),
            r.max_spec() == max_owned,
    {
        proof {
            assert(Seq::<OwnerEntry>::empty().map_values(|e: OwnerEntry| e@) =~= Seq::<
                EntryView,
            >::empty());
        }
        OwnerIndex { max_owned, entries: Vec::new() }
    }

    /// The position of `owner`'s entry, if any.
    fn find(&self, owner: u64) -> (r: Option<usize>)
        ensures
            match r {
                Some(i) => i < self.evs().len() && self.evs()[i as int].owner == owner,
                None => forall|i: int|
                    0 <= i < self.evs().len() ==> #[trigger] self.evs()[i].owner != owner,
            },
    {
        let mut i: usize = 0;
        while i < self.entries.len()
            invariant
                i <= self.evs().len(),
                forall|k: int| 0 <= k < i ==> #[trigger] self.evs()[k].owner != owner,
            decreases self.evs().len() - i,
        {
            if self.entries[i].owner == owner {
                return Some(i);
            }
            i = i + 1;
        }
        None
    }

    /// How many identities `owner` holds.
    pub fn owned_count(&self, owner: u64) -> (r: usize)
        requires
            self.wf(),
        ensures
            r == owned_of(self@, owner).len(),
    {
        proof {
            lemma_owner_map_membership(self.evs());
        }
        match self.find(owner) {
            Some(i) => {
                proof {
                    lemma_owner_map_index(self.evs(), i as int);
                }
                self.entries[i].ids.len()
            },
            None => 0,
        }
    }

    /// Appends `identity` to `owner`'s holdings, refusing — and mutating
    /// nothing — when the owner already holds `max_owned` identities.
    pub fn append(&mut self, owner: u64, identity: &[u8; 32]) -> (r: Result<(), IndexError>)
        requires
            old(self).wf(),
        ensures
            final(self).wf(),
            final(self).max_spec() == old(self).max_spec(),
            r is Ok <==> owned_of(old(self)@, owner).len() < old(self).max_spec(),
            r is Ok ==> final(self)@ == old(self)@.insert(
                owner,
                owned_of(old(self)@, owner).push(identity@),
            ),
            r is Err ==> *final(self) == *old(self) && r == Err::<(), IndexError>(
                IndexError::CapacityExceeded,
            ),
    {
        proof {
            lemma_owner_map_membership(self.evs());
        }
        match self.find(owner) {
            Some(i) => {
                proof {
                    lemma_owner_map_index(self.evs(), i as int);
                }
                if self.entries[i].ids.len() >= self.max_owned {
                    return Err(IndexError::CapacityExceeded);
                }
                let ghost pre = self.evs();
                let mut entry = self.entries.remove(i);
                entry.ids.push(*identity);
                self.entries.insert(i, entry);
                proof {
                    let e2 = EntryView {
                        owner,
                        ids: owned_of(owner_map(pre), owner).push(identity@),
                    };
                    assert(entry@.ids =~= pre[i as int].ids.push(identity@));
                    assert(entry@ == e2);
                    assert(self.evs() =~= pre.update(i as int, e2));
                    lemma_owner_map_update(pre, i as int, e2);
                }
                Ok(())
            },
            None => {
                if self.max_owned == 0 {
                    return Err(IndexError::CapacityExceeded);
                }
                let ghost pre = self.evs();
                let mut ids: Vec<[u8; 32]> = Vec::new();
                ids.push(*identity);
                let entry = OwnerEntry { owner, ids };
                self.entries.push(entry);
                proof {
                    assert(owned_of(owner_map(pre), owner) =~= Seq::<Seq<u8>>::empty());
                    assert(entry@.ids =~= Seq::<Seq<u8>>::empty().push(identity@));
                    assert(self.evs() =~= pre.push(entry@));
                    assert(self.evs().drop_last() =~= pre);
                    assert(unique_owners(self.evs()));
                }
                Ok(())
            },
        }
    }

    /// Removes the first occurrence of `identity` from `owner`'s holdings,
    /// refusing — and mutating nothing — when the owner does not hold it.
    pub fn remove(&mut self, owner: u64, identity: &[u8; 32]) -> (r: Result<(), IndexError>)
        requires
            old(self).wf(),
        ensures
            final(self).wf(),
            final(self).max_spec() == old(self).max_spec(),
            r is Ok <==> owned_of(old(self)@, owner).contains(identity@),
            r is Ok ==> final(self)@ == old(self)@.insert(
                owner,
                owned_of(old(self)@, owner).remove_value(identity@),
            ),
            r is Err ==> *final(self) == *old(self) && r == Err::<(), IndexError>(
                IndexError::NotFound,
            ),
    {
        proof {
            lemma_owner_map_membership(self.evs());
        }
        match self.find(owner) {
            Some(i) => {
                proof {
                    lemma_owner_map_index(self.evs(), i as int);
                }
                let ghost pre = self.evs();
                let ghost held = owned_of(owner_map(pre), owner);
                let n = self.entries[i].ids.len();
                let mut j: usize = 0;
                while j < n
                    invariant
                        old(self) == self,
                        self.wf(),
                        i < self.evs().len(),
                        self.evs()[i as int].owner == owner,
                        pre == self.evs(),
                        held == self.evs()[i as int].ids,
                        n == self.entries@[i as int].ids@.len(),
                        j <= n,
                        forall|k: int| 0 <= k < j ==> #[trigger] held[k] != identity@,
                    decreases n - j,
                {
                    if bytes_equal_32(&self.entries[i].ids[j], identity) {
                        proof {
                            lemma_owner_map_index(pre, i as int);
                            assert(owned_of(owner_map(pre), owner) == held);
                            assert(held[j as int] == identity@);
                            held.index_of_first_ensures(identity@);
                            assert(held.index_of_first(identity@) is Some);
                            let f = held.index_of_first(identity@)->Some_0;
                            assert(held[f] == identity@);
                            assert(f == j as int);
                        }
                        let mut entry = self.entries.remove(i);
                        entry.ids.remove(j);
                        self.entries.insert(i, entry);
                        proof {
                            let e2 = EntryView { owner, ids: held.remove(j as int) };
                            held.remove_ensures(j as int);
                            assert(entry@.ids =~= held.remove(j as int));
                            assert(entry@ == e2);
                            assert(self.evs() =~= pre.update(i as int, e2));
                            lemma_owner_map_update(pre, i as int, e2);
                            assert(held.remove_value(identity@) == held.remove(j as int));
                        }
                        return Ok(());
                    }
                    j = j + 1;
                }
                proof {
                    assert(forall|k: int| 0 <= k < held.len() ==> #[trigger] held[k] != identity@);
                    assert(!held.contains(identity@));
                }
                Err(IndexError::NotFound)
            },
            None => {
                proof {
                    assert(!owner_map(self.evs()).contains_key(owner));
                }
                Err(IndexError::NotFound)
            },
        }
    }
}

} // verus!
