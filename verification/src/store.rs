//! The Registry Store: the key→record map that owns every live record.
//!
//! Records are kept in a vector whose identities are pairwise distinct; the
//! store's mathematical value is the finite map from identity to record.
//! `insert` is collision-aware: an existing key is reported, never
//! overwritten.

use vstd::prelude::*;

use crate::attributes::Gender;

verus! {

/// A live entity: immutable once created.  The identity is derived from the
/// canonical encoding of the remaining fields, never caller-supplied.
#[derive(Clone, Debug)]
pub struct Record {
    pub identity: [u8; 32],
    pub owner: u64,
    pub dna: [u8; 16],
    pub gender: Gender,
    pub created_at: u64,
}

/// The mathematical value of a record: its fields over plain sequences.
#[verifier::ext_equal]
pub struct RecordView {
    pub identity: Seq<u8>,
    pub owner: u64,
    pub dna: Seq<u8>,
    pub gender: Gender,
    pub created_at: u64,
}

impl View for Record {
    type V = RecordView;

    open spec fn view(&self) -> RecordView {
        RecordView {
            identity: self.identity@,
            owner: self.owner,
            dna: self.dna@,
            gender: self.gender,
            created_at: self.created_at,
        }
    }
}

/// Why an insertion was refused.
#[derive(Clone, Copy, Debug, PartialEq, Eq, Structural)]
pub enum StoreError {
    /// A record with the same identity is already live.
    KeyExists,
}

/// No two records of the sequence share an identity.
pub open spec fn unique_identities(s: Seq<RecordView>) -> bool {
    forall|i: int, j: int|
        0 <= i < j < s.len() ==> #[trigger] s[i].identity != #[trigger] s[j].identity
}

/// The map from identity to record that a sequence of records denotes.
pub open spec fn record_map(s: Seq<RecordView>) -> Map<Seq<u8>, RecordView>
    decreases s.len(),
{
    if s.len() == 0 {
        Map::empty()
    } else {
        record_map(s.drop_last()).insert(s.last().identity, s.last())
    }
}

/// An identity is a key of `record_map(s)` exactly when some record of `s`
/// carries it.
pub proof fn lemma_record_map_membership(s: Seq<RecordView>)
    ensures
        forall|id: Seq<u8>|
            #[trigger] record_map(s).contains_key(id) <==> (exists|i: int|
                0 <= i < s.len() && #[trigger] s[i].identity == id),
    decreases s.len(),
{
    if s.len() > 0 {
        lemma_record_map_membership(s.drop_last());
        assert forall|id: Seq<u8>| #[trigger] record_map(s).contains_key(id) implies (exists|
            i: int,
        | 0 <= i < s.len() && #[trigger] s[i].identity == id) by {
            if id == s.last().identity {
                assert(s[s.len() - 1].identity == id);
            } else {
                assert(record_map(s.drop_last()).contains_key(id));
                let i = choose|i: int|
                    0 <= i < s.drop_last().len() && #[trigger] s.drop_last()[i].identity == id;
                assert(s.drop_last()[i] == s[i]);
                assert(s[i].identity == id);
            }
        }
        assert forall|id: Seq<u8>|
            (exists|i: int|
                0 <= i < s.len() && #[trigger] s[i].identity == id) implies #[trigger] record_map(
            s,
        ).contains_key(id) by {
            let i = choose|i: int| 0 <= i < s.len() && #[trigger] s[i].identity == id;
            if i < s.len() - 1 {
                assert(s.drop_last()[i] == s[i]);
                assert(s.drop_last()[i].identity == id);
                assert(record_map(s.drop_last()).contains_key(id));
            } else {
                assert(s.last().identity == id);
            }
        }
    }
}

/// With pairwise-distinct identities, the map sends each record's identity
/// to that record.
pub proof fn lemma_record_map_index(s: Seq<RecordView>, i: int)
    requires
        unique_identities(s),
        0 <= i < s.len(),
    ensures
        record_map(s).contains_key(s[i].identity),
        record_map(s)[s[i].identity] == s[i],
    decreases s.len(),
{
    if i == s.len() - 1 {
    } else {
        assert(unique_identities(s.drop_last()));
        assert(s.drop_last()[i] == s[i]);
        lemma_record_map_index(s.drop_last(), i);
        assert(s[i].identity != s.last().identity);
    }
}

/// With pairwise-distinct identities, the map has exactly one key per
/// record.
pub proof fn lemma_record_map_len(s: Seq<RecordView>)
    requires
        unique_identities(s),
    ensures
        record_map(s).dom().finite(),
        record_map(s).dom().len() == s.len(),
    decreases s.len(),
{
    broadcast use vstd::set::group_set_axioms;

    if s.len() > 0 {
        assert(unique_identities(s.drop_last()));
        lemma_record_map_len(s.drop_last());
        lemma_record_map_membership(s.drop_last());
        assert(!record_map(s.drop_last()).contains_key(s.last().identity));
        assert(record_map(s).dom() =~= record_map(s.drop_last()).dom().insert(s.last().identity));
    }
}

/// Removing the record at `i` removes exactly its key from the map.
pub proof fn lemma_record_map_remove(s: Seq<RecordView>, i: int)
    requires
        unique_identities(s),
        0 <= i < s.len(),
    ensures
        unique_identities(s.remove(i)),
        record_map(s.remove(i)) == record_map(s).remove(s[i].identity),
{
    let t = s.remove(i);
    assert forall|p: int, q: int| 0 <= p < q < t.len() implies #[trigger] t[p].identity
        != #[trigger] t[q].identity by {
        let p0 = if p < i {
            p
        } else {
            p + 1
        };
        let q0 = if q < i {
            q
        } else {
            q + 1
        };
        assert(t[p] == s[p0] && t[q] == s[q0]);
    }
    lemma_record_map_membership(s);
    lemma_record_map_membership(t);
    assert forall|id: Seq<u8>| #[trigger] record_map(t).contains_key(id) implies record_map(
        s,
    ).remove(s[i].identity).contains_key(id) && record_map(t)[id] == record_map(s).remove(
        s[i].identity,
    )[id] by {
        let k = choose|k: int| 0 <= k < t.len() && #[trigger] t[k].identity == id;
        let k0 = if k < i {
            k
        } else {
            k + 1
        };
        assert(t[k] == s[k0]);
        assert(id != s[i].identity);
        lemma_record_map_index(s, k0);
        lemma_record_map_index(t, k);
    }
    assert forall|id: Seq<u8>| #[trigger] record_map(s).remove(s[i].identity).contains_key(
        id,
    ) implies record_map(t).contains_key(id) by {
        let k = choose|k: int| 0 <= k < s.len() && #[trigger] s[k].identity == id;
        assert(k != i);
        let k1 = if k < i {
            k
        } else {
            k - 1
        };
        assert(t[k1] == s[k]);
    }
    assert(record_map(t) =~= record_map(s).remove(s[i].identity));
}

/// The key→record map.
pub struct Store {
    pub records: Vec<Record>,
}

impl View for Store {
    type V = Map<Seq<u8>, RecordView>;

    open spec fn view(&self) -> Map<Seq<u8>, RecordView> {
        record_map(self.recs())
    }
}

impl Store {
    /// The records as mathematical values, in insertion order.
    pub open spec fn recs(self) -> Seq<RecordView> {
        self.records@.map_values(|r: Record| r@)
    }

    /// Representation invariant: no two live records share an identity.
    pub open spec fn wf(self) -> bool {
        unique_identities(self.recs())
    }

    /// An empty store.
    pub fn new() -> (r: Store)
        ensures
            r.wf(),
            r@ == Map::<Seq<u8>, RecordView>::empty(),
            r.recs().len() == 0,
    {
        proof {
            assert(Seq::<Record>::empty().map_values(|r: Record| r@) =~= Seq::<
                RecordView,
            >::empty());
        }
        Store { records: Vec::new() }
    }

    /// The number of live records, which — with identities unique — is
    /// also the number of keys of the map.
    pub fn len(&self) -> (r: usize)
        ensures
            r == self.recs().len(),
            self.wf() ==> r == self@.dom().len(),
    {
        proof {
            if self.wf() {
                lemma_record_map_len(self.recs());
            }
        }
        self.records.len()
    }

    /// The position of the record carrying `identity`, if any.
    fn find(&self, identity: &[u8; 32]) -> (r: Option<usize>)
        ensures
            match r {
                Some(i) => i < self.recs().len() && self.recs()[i as int].identity == identity@,
                None => forall|i: int|
                    0 <= i < self.recs().len() ==> #[trigger] self.recs()[i].identity != identity@,
            },
    {
        let mut i: usize = 0;
        while i < self.records.len()
            invariant
                i <= self.recs().len(),
                forall|k: int| 0 <= k < i ==> #[trigger] self.recs()[k].identity != identity@,
            decreases self.recs().len() - i,
        {
            if bytes_equal_32(&self.records[i].identity, identity) {
                return Some(i);
            }
            i = i + 1;
        }
        None
    }

    /// Looks a record up by identity.
    pub fn get(&self, identity: &[u8; 32]) -> (r: Option<&Record>)
        requires
            self.wf(),
        ensures
            match r {
                Some(rec) => self@.contains_key(identity@) && rec@ == self@[identity@],
                None => !self@.contains_key(identity@),
            },
    {
        proof {
            lemma_record_map_membership(self.recs());
        }
        match self.find(identity) {
            Some(i) => {
                proof {
                    lemma_record_map_index(self.recs(), i as int);
                }
                Some(&self.records[i])
            },
            None => None,
        }
    }

    /// Inserts a freshly minted record, refusing an identity collision
    /// rather than overwriting the live record that carries the key.
    pub fn insert(&mut self, record: Record) -> (r: Result<(), StoreError>)
        requires
            old(self).wf(),
        ensures
            final(self).wf(),
            r is Ok <==> !old(self)@.contains_key(record@.identity),
            r is Ok ==> final(self)@ == old(self)@.insert(record@.identity, record@)
                && final(self).recs() == old(self).recs().push(record@),
            r is Err ==> *final(self) == *old(self) && r == Err::<(), StoreError>(
                StoreError::KeyExists,
            ),
    {
        proof {
            lemma_record_map_membership(self.recs());
        }
        match self.find(&record.identity) {
            Some(_) => Err(StoreError::KeyExists),
            None => {
                let ghost pre = self.recs();
                let ghost v = record@;
                self.records.push(record);
                proof {
                    assert(self.recs() =~= pre.push(v));
                    assert(self.recs().drop_last() =~= pre);
                    assert(unique_identities(self.recs()));
                }
                Ok(())
            },
        }
    }

    /// Removes and returns the record at `identity`, leaving the store
    /// untouched when the key is absent.
    pub fn remove(&mut self, identity: &[u8; 32]) -> (r: Option<Record>)
        requires
            old(self).wf(),
        ensures
            final(self).wf(),
            match r {
                Some(rec) => old(self)@.contains_key(identity@) && rec@ == old(self)@[identity@]
                    && final(self)@ == old(self)@.remove(identity@) && final(self).recs()
                    == recs_without(old(self).recs(), identity@),
                None => !old(self)@.contains_key(identity@) && *final(self) == *old(self),
            },
    {
        proof {
            lemma_record_map_membership(self.recs());
        }
        match self.find(identity) {
            Some(i) => {
                let ghost pre = self.recs();
                proof {
                    lemma_record_map_index(pre, i as int);
                    lemma_record_map_remove(pre, i as int);
                }
                let rec = self.records.remove(i);
                proof {
                    assert(self.recs() =~= pre.remove(i as int));
                    lemma_record_map_membership(pre.remove(i as int));
                    assert(pre[i as int].identity == identity@);
                    let k = index_of_identity(pre, identity@);
                    assert(0 <= k < pre.len() && pre[k].identity == identity@);
                    assert(k == i as int);
                }
                Some(rec)
            },
            None => None,
        }
    }
}

/// The position at which `s` carries `id`; meaningful when identities are
/// unique and `id` occurs.
pub open spec fn index_of_identity(s: Seq<RecordView>, id: Seq<u8>) -> int {
    choose|i: int| 0 <= i < s.len() && #[trigger] s[i].identity == id
}

/// The sequence with the record carrying `id` taken out.
pub open spec fn recs_without(s: Seq<RecordView>, id: Seq<u8>) -> Seq<RecordView> {
    s.remove(index_of_identity(s, id))
}

/// Byte-for-byte equality of two 32-byte values.
pub fn bytes_equal_32(a: &[u8; 32], b: &[u8; 32]) -> (r: bool)
    ensures
        r <==> a@ == b@,
{
    let mut i: usize = 0;
    while i < 32
        invariant
            i <= 32,
            forall|k: int| 0 <= k < i ==> a@[k] == b@[k],
        decreases 32 - i,
    {
        if a[i] != b[i] {
            return false;
        }
        i = i + 1;
    }
    proof {
        assert(a@ =~= b@);
    }
    true
}

} // verus!
