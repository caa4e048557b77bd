//! The laws the registry obeys, proved over the spec-level transition
//! that `Registry::create` and `Registry::remove` are contracted to.

use vstd::prelude::*;

use crate::attributes::{dna_of, gender_of, identity_of};
use crate::index::owned_of;
use crate::registry::{
    create_post, create_result, registry_inv, remove_post, remove_result, MintError, RegistryView,
    RemoveError,
};

verus! {

/// One mint request: the inputs a `create` call takes.
pub struct CreateRequest {
    pub owner: u64,
    pub seed: Seq<u8>,
    pub beacon: Seq<u8>,
    pub context: u64,
}

/// The identities the successful calls of a run of `create` calls
/// return, first request first.
pub open spec fn returned_identities(v: RegistryView, ops: Seq<CreateRequest>) -> Seq<Seq<u8>>
    decreases ops.len(),
{
    if ops.len() == 0 {
        Seq::empty()
    } else {
        let r = create_result(v, ops[0].owner, ops[0].seed, ops[0].beacon, ops[0].context);
        let w = create_post(v, ops[0].owner, ops[0].seed, ops[0].beacon, ops[0].context);
        let rest = returned_identities(w, ops.drop_first());
        if r is Ok {
            seq![r->Ok_0] + rest
        } else {
            rest
        }
    }
}

/// An identity that is already live when a run starts is never returned
/// by any call of the run: every successful call mints a fresh key.
pub proof fn lemma_live_identity_never_returned(
    v: RegistryView,
    ops: Seq<CreateRequest>,
    id: Seq<u8>,
)
    requires
        v.records.contains_key(id),
    ensures
        !returned_identities(v, ops).contains(id),
    decreases ops.len(),
{
    if ops.len() > 0 {
        let r = create_result(v, ops[0].owner, ops[0].seed, ops[0].beacon, ops[0].context);
        let w = create_post(v, ops[0].owner, ops[0].seed, ops[0].beacon, ops[0].context);
        let rest = returned_identities(w, ops.drop_first());
        assert(w.records.contains_key(id));
        lemma_live_identity_never_returned(w, ops.drop_first(), id);
        if r is Ok {
            assert(r->Ok_0 != id);
            if (seq![r->Ok_0] + rest).contains(id) {
                let k = choose|k: int|
                    0 <= k < (seq![r->Ok_0] + rest).len() && (seq![r->Ok_0] + rest)[k] == id;
                assert(k > 0);
                assert(rest[k - 1] == id);
                assert(false);
            }
        }
    }
}

/// Uniqueness: over any run of `create` calls, the identities returned by
/// the successful calls are pairwise distinct — each successful call
/// rejects a colliding key, so it only ever mints an identity that is not
/// yet live, and identities stay live for the rest of the run.
pub proof fn lemma_create_identities_unique(v: RegistryView, ops: Seq<CreateRequest>)
    ensures
        forall|i: int, j: int|
            0 <= i < j < returned_identities(v, ops).len() ==> returned_identities(v, ops)[i]
                != returned_identities(v, ops)[j],
    decreases ops.len(),
{
    if ops.len() > 0 {
        let r = create_result(v, ops[0].owner, ops[0].seed, ops[0].beacon, ops[0].context);
        let w = create_post(v, ops[0].owner, ops[0].seed, ops[0].beacon, ops[0].context);
        let rest = returned_identities(w, ops.drop_first());
        let ids = returned_identities(v, ops);
        lemma_create_identities_unique(w, ops.drop_first());
        if r is Ok {
            let id0 = r->Ok_0;
            assert(w.records.contains_key(id0));
            lemma_live_identity_never_returned(w, ops.drop_first(), id0);
            assert forall|i: int, j: int| 0 <= i < j < ids.len() implies ids[i] != ids[j] by {
                if i == 0 {
                    assert(ids[j] == rest[j - 1]);
                    if rest[j - 1] == id0 {
                        assert(rest.contains(id0));
                    }
                } else {
                    assert(ids[i] == rest[i - 1] && ids[j] == rest[j - 1]);
                }
            }
        }
    }
}

/// Counter consistency: at every quiescent point the global counter
/// equals the number of live records.
pub proof fn lemma_counter_consistency(v: RegistryView)
    requires
        registry_inv(v),
    ensures
        v.counter == v.records.dom().len(),
{
}

/// Index consistency: every identity an owner's holdings list exists in
/// the store with the matching owner, and no holdings list exceeds the
/// capacity bound.
pub proof fn lemma_index_consistency(v: RegistryView, owner: u64)
    requires
        registry_inv(v),
    ensures
        forall|j: int|
            0 <= j < owned_of(v.owned, owner).len() ==> v.records.contains_key(
                #[trigger] owned_of(v.owned, owner)[j],
            ) && v.records[owned_of(v.owned, owner)[j]].owner == owner,
        owned_of(v.owned, owner).len() <= v.max_owned,
{
}

/// Atomicity under rejection: a rejected `create` or `remove` leaves the
/// registry's value exactly as it was.
pub proof fn lemma_rejection_atomic(
    v: RegistryView,
    owner: u64,
    seed: Seq<u8>,
    beacon: Seq<u8>,
    context: u64,
    caller: u64,
    id: Seq<u8>,
)
    ensures
        create_result(v, owner, seed, beacon, context) is Err ==> create_post(
            v,
            owner,
            seed,
            beacon,
            context,
        ) == v,
        remove_result(v, caller, id) is Err ==> remove_post(v, caller, id) == v,
{
}

/// Overflow boundary: with the counter at the ceiling of its type and
/// capacity to spare, a `create` is refused with `CounterOverflow` and
/// nothing changes.
pub proof fn lemma_overflow_boundary(
    v: RegistryView,
    owner: u64,
    seed: Seq<u8>,
    beacon: Seq<u8>,
    context: u64,
)
    requires
        v.counter == u64::MAX,
        owned_of(v.owned, owner).len() < v.max_owned,
    ensures
        create_result(v, owner, seed, beacon, context) == Err::<Seq<u8>, MintError>(
            MintError::CounterOverflow,
        ),
        create_post(v, owner, seed, beacon, context) == v,
{
}

/// Remove authorization: a non-owner's `remove` of a live identity is
/// refused with `NotOwner` and changes nothing; the true owner's `remove`
/// deletes the identity from the store and from the owner's holdings and
/// decrements the counter by exactly one.
pub proof fn lemma_remove_authorization(v: RegistryView, caller: u64, id: Seq<u8>)
    requires
        registry_inv(v),
        v.records.contains_key(id),
    ensures
        v.records[id].owner != caller ==> remove_result(v, caller, id) == Err::<(), RemoveError>(
            RemoveError::NotOwner,
        ) && remove_post(v, caller, id) == v,
        v.records[id].owner == caller ==> remove_result(v, caller, id) == Ok::<(), RemoveError>(())
            && remove_post(v, caller, id).counter + 1 == v.counter && !remove_post(
            v,
            caller,
            id,
        ).records.contains_key(id) && !owned_of(remove_post(v, caller, id).owned, caller).contains(
            id,
        ),
{
    broadcast use vstd::set::group_set_axioms;

    if v.records[id].owner == caller {
        let held = owned_of(v.owned, caller);
        assert(held.contains(id));
        held.index_of_first_ensures(id);
        let f = held.index_of_first(id)->Some_0;
        held.remove_ensures(f);
        let held2 = held.remove_value(id);
        assert(v.records.dom().contains(id));
        assert(v.records.dom().len() > 0);
        assert forall|k: int| 0 <= k < held2.len() implies held2[k] != id by {
            if k < f {
                assert(held2[k] == held[k]);
            } else {
                assert(held2[k] == held[k + 1]);
            }
        }
        if owned_of(remove_post(v, caller, id).owned, caller).contains(id) {
            let k = choose|k: int| 0 <= k < held2.len() && held2[k] == id;
            assert(false);
        }
    }
}

/// Determinism of attributes: two requests with the same seed, the same
/// beacon output and the same tick receive the same attributes, and the
/// same owner then derives the same identity.
pub proof fn lemma_attribute_determinism(
    owner: u64,
    seed1: Seq<u8>,
    beacon1: Seq<u8>,
    context1: u64,
    seed2: Seq<u8>,
    beacon2: Seq<u8>,
    context2: u64,
)
    requires
        seed1 == seed2,
        beacon1 == beacon2,
        context1 == context2,
    ensures
        dna_of(seed1, beacon1, context1) == dna_of(seed2, beacon2, context2),
        gender_of(beacon1) == gender_of(beacon2),
        identity_of(owner, seed1, beacon1, context1) == identity_of(owner, seed2, beacon2, context2),
{
}

} // verus!
