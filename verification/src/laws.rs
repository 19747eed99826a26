//! The library's cross-function guarantees, each proved from the public
//! contracts alone: entity-id lifecycle, component stripping on entity
//! removal, store round-trips and dense-length accounting, query-result
//! membership, and cache coherence.

use crate::accessor::{
    bump, needs_recompute, query_matches, query_post, query_result, stale, stamps_for,
    EntityIdAccessor,
};
use crate::entity_manager::EntityManager;
use crate::registry::Entities;
use crate::store::ComponentManager;
use vstd::prelude::*;

verus! {

/// An id handed out by `create` did not exist before the call and exists
/// right afterwards; creating or removing a different id in between leaves
/// it alive, until a matching `remove` ends its life.
pub proof fn lemma_entity_lifecycle(
    s0: Entities,
    s1: Entities,
    s2: Entities,
    s3: Entities,
    id: usize,
    other: usize,
)
    requires
        Entities::create_effect(s0, s1, id),
        other != id,
        Entities::create_effect(s1, s2, other) || Entities::remove_effect(s1, s2, other),
        Entities::remove_effect(s2, s3, id),
    ensures
        !s0.spec_exists(id),
        s1.spec_exists(id),
        s2.spec_exists(id),
        !s3.spec_exists(id),
{
}

/// A store that went through `remove_effect` for an id no longer returns a
/// component for it, whether or not one was attached.
pub proof fn lemma_remove_effect_clears<C>(
    pre: ComponentManager<C>,
    post: ComponentManager<C>,
    id: usize,
)
    requires
        ComponentManager::<C>::remove_effect(pre, post, id),
    ensures
        post.spec_get(id) is None,
{
}

/// Removing an entity strips its component from every registered store,
/// and an id recycled by a later `create` comes back with no components
/// attached under any registered key.
pub proof fn lemma_recycled_id_is_clean<C>(
    m0: EntityManager<C>,
    m1: EntityManager<C>,
    m2: EntityManager<C>,
    id: usize,
    rid: usize,
)
    requires
        m0.registry().spec_exists(id),
        Entities::remove_effect(m0.registry(), m1.registry(), id),
        forall|k: u64|
            m0.registered(k) ==> ComponentManager::<C>::remove_effect(
                m0.store_of(k),
                #[trigger] m1.store_of(k),
                id,
            ),
        m1.keys() == m0.keys(),
        Entities::create_effect(m1.registry(), m2.registry(), rid),
        EntityManager::<C>::same_stores(m1, m2),
    ensures
        !m1.registry().spec_exists(id),
        m2.registry().spec_exists(rid),
        forall|k: u64| m0.registered(k) ==> (#[trigger] m2.store_of(k).spec_get(id)) is None,
{
    assert forall|k: u64| m0.registered(k) implies (#[trigger] m2.store_of(k).spec_get(id))
        is None by {
        lemma_remove_effect_clears(m0.store_of(k), m1.store_of(k), id);
        assert(m1.registered(k));
        assert(m2.store_of(k) == m1.store_of(k));
    }
}

/// Store round-trip: after `add(id, v)` the store returns `Some(v)` for
/// `id`; after a following `remove(id)` it returns `None`; no other id's
/// component is touched by either step.
pub proof fn lemma_store_round_trip<C>(
    s0: ComponentManager<C>,
    s1: ComponentManager<C>,
    s2: ComponentManager<C>,
    id: usize,
    v: C,
    other: usize,
)
    requires
        ComponentManager::<C>::add_effect(s0, s1, id, v),
        ComponentManager::<C>::remove_effect(s1, s2, id),
        other != id,
    ensures
        s1.spec_get(id) == Some(v),
        s2.spec_get(id) is None,
        s1.spec_get(other) == s0.spec_get(other),
        s2.spec_get(other) == s0.spec_get(other),
{
    lemma_remove_effect_clears(s1, s2, id);
}

/// The dense sequences hold one entry per entity currently owning a
/// component: the id sequence is duplicate-free, its length equals the
/// cardinality of the id set, and that set is exactly the set of ids the
/// store answers for.
pub proof fn lemma_dense_len_counts_holders<C>(s: ComponentManager<C>)
    requires
        s.wf(),
    ensures
        s.ids().no_duplicates(),
        s.ids().len() == s.ids().to_set().len(),
        s.ids().to_set() == Set::new(|id: usize| s.spec_has(id)),
        s.vals().len() == s.ids().len(),
{
    s.lemma_ids_no_duplicates();
    s.ids().unique_seq_to_set();
    assert forall|id: usize| s.ids().to_set().contains(id) == s.spec_has(id) by {
        if s.ids().contains(id) {
            let w = choose|w: int| 0 <= w < s.ids().len() && s.ids()[w] == id;
            assert(s.lookup()[id as int] == Some(w as usize));
        }
        if s.spec_has(id) {
            assert(s.ids()[s.spec_index_of(id)] == id);
        }
    }
    assert(s.ids().to_set() =~= Set::new(|id: usize| s.spec_has(id)));
}

/// Query membership: an id is in the filtered result exactly when it is a
/// candidate and every remaining store holds a component for it.
pub proof fn lemma_query_matches_membership<C>(
    m: EntityManager<C>,
    cands: Seq<usize>,
    rest: Seq<u64>,
    id: usize,
)
    ensures
        query_matches(m, cands, rest).contains(id) <==> (cands.contains(id) && crate::accessor::all_have(
            m,
            rest,
            id,
        )),
    decreases cands.len(),
{
    if cands.len() == 0 {
        assert(!cands.contains(id));
        assert(!query_matches(m, cands, rest).contains(id));
    } else {
        let shorter = cands.drop_last();
        lemma_query_matches_membership(m, shorter, rest, id);
        let prefix = query_matches(m, shorter, rest);
        assert(cands.contains(id) <==> (shorter.contains(id) || cands.last() == id)) by {
            if cands.contains(id) {
                let w = choose|w: int| 0 <= w < cands.len() && cands[w] == id;
                if w < cands.len() - 1 {
                    assert(shorter[w] == id);
                }
            }
            if shorter.contains(id) {
                let w = choose|w: int| 0 <= w < shorter.len() && shorter[w] == id;
                assert(cands[w] == id);
            }
            if cands.last() == id {
                assert(cands[cands.len() - 1] == id);
            }
        }
        if crate::accessor::all_have(m, rest, cands.last()) {
            let full = prefix.push(cands.last());
            assert(query_matches(m, cands, rest) == full);
            assert(full.contains(id) <==> (prefix.contains(id) || cands.last() == id)) by {
                if full.contains(id) {
                    let w = choose|w: int| 0 <= w < full.len() && full[w] == id;
                    if w < prefix.len() {
                        assert(prefix[w] == id);
                    }
                }
                if prefix.contains(id) {
                    let w = choose|w: int| 0 <= w < prefix.len() && prefix[w] == id;
                    assert(full[w] == id);
                }
                assert(full[full.len() - 1] == cands.last());
            }
        }
    }
}

/// Running the same query twice against an unchanged manager serves the
/// second call from the cache: same ids, and the recomputation counter
/// does not move.
pub proof fn lemma_cached_query_stable<C>(
    a0: EntityIdAccessor,
    a1: EntityIdAccessor,
    a2: EntityIdAccessor,
    m: EntityManager<C>,
    keys: Seq<u64>,
    r1: Option<Seq<usize>>,
    r2: Option<Seq<usize>>,
)
    requires
        query_post(a0, a1, m, keys, r1),
        query_post(a1, a2, m, keys, r2),
        r1 is Some,
    ensures
        r2 is Some,
        r2.unwrap() == r1.unwrap(),
        a2.spec_recomputations() == a1.spec_recomputations(),
{
    assert(!needs_recompute(a1, m, keys)) by {
        if needs_recompute(a0, m, keys) {
            assert(a1.entry_stamps(keys) == stamps_for(m, keys));
            if stale(a1.entry_stamps(keys), stamps_for(m, keys)) {
                let q = choose|q: int|
                    0 <= q < a1.entry_stamps(keys).len() && stamps_for(m, keys)[q] > a1.entry_stamps(
                        keys,
                    )[q];
                assert(false);
            }
        } else {
            assert(a1.entry_stamps(keys) == a0.entry_stamps(keys));
        }
    }
}

/// After a cached query, a structural change that advances a participating
/// stamp forces the next identical query to recompute: the result reflects
/// the manager's current contents and the counter records the rescan.
pub proof fn lemma_stale_query_refreshes<C>(
    a0: EntityIdAccessor,
    a1: EntityIdAccessor,
    a2: EntityIdAccessor,
    m0: EntityManager<C>,
    m1: EntityManager<C>,
    keys: Seq<u64>,
    r1: Option<Seq<usize>>,
    r2: Option<Seq<usize>>,
)
    requires
        query_post(a0, a1, m0, keys, r1),
        r1 is Some,
        needs_recompute(a0, m0, keys),
        query_post(a1, a2, m1, keys, r2),
        r2 is Some,
        exists|q: int|
            0 <= q < keys.len() && m1.stamp_of(#[trigger] keys[q]) > m0.stamp_of(keys[q]),
    ensures
        r2.unwrap() == query_result(m1, keys),
        a2.spec_recomputations() == bump(a1.spec_recomputations()),
{
    assert(a1.entry_stamps(keys) == stamps_for(m0, keys));
    let q = choose|q: int|
        0 <= q < keys.len() && m1.stamp_of(#[trigger] keys[q]) > m0.stamp_of(keys[q]);
    assert(stamps_for(m1, keys)[q] == m1.stamp_of(keys[q]));
    assert(stamps_for(m0, keys)[q] == m0.stamp_of(keys[q]));
    assert(stale(a1.entry_stamps(keys), stamps_for(m1, keys)));
}

} // verus!
