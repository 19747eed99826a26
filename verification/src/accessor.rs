//! The query cache: given a manager, it returns (and memoizes) the ids of
//! the entities holding all of 1 to 4 component types, recomputing an entry
//! only when a participating store's stamp has advanced past the stamp
//! recorded when the entry was last computed.
//!
//! Entries are keyed by the exact key tuple of the call.  A recomputation
//! seeds the candidate set with the first key's dense id sequence, so that
//! key's dense order is the output order, and filters it through the
//! remaining stores.  Stamps have frame granularity: two structural changes
//! to one store within a single frame can leave its stamp in place, in
//! which case the entry refreshes on the next tick rather than at once.

use crate::entity_manager::EntityManager;
use crate::seq_util::{lemma_seq_first_pos, lemma_seq_first_pos_unique, seq_distinct, seq_first_pos};
use vstd::prelude::*;

verus! {

/// The current stamps of the queried keys, in query order.
pub open spec fn stamps_for<C>(m: EntityManager<C>, keys: Seq<u64>) -> Seq<u64> {
    keys.map(|i: int, k: u64| m.stamp_of(k))
}

/// Some participating store changed structurally since the stamps were
/// recorded.
pub open spec fn stale(recorded: Seq<u64>, current: Seq<u64>) -> bool {
    exists|q: int| 0 <= q < recorded.len() && current[q] > recorded[q]
}

pub open spec fn all_have<C>(m: EntityManager<C>, rest: Seq<u64>, id: usize) -> bool {
    forall|j: int| 0 <= j < rest.len() ==> m.store_of(#[trigger] rest[j]).spec_has(id)
}

/// The candidates, in order, that every store of `rest` also holds.
pub open spec fn query_matches<C>(m: EntityManager<C>, cands: Seq<usize>, rest: Seq<u64>) -> Seq<
    usize,
>
    decreases cands.len(),
{
    if cands.len() == 0 {
        Seq::empty()
    } else {
        let prefix = query_matches(m, cands.drop_last(), rest);
        if all_have(m, rest, cands.last()) {
            prefix.push(cands.last())
        } else {
            prefix
        }
    }
}

/// The semantic result of an intersection query: the first key's dense id
/// order, filtered by membership in the remaining keys' stores.
pub open spec fn query_result<C>(m: EntityManager<C>, keys: Seq<u64>) -> Seq<usize> {
    query_matches(m, m.store_of(keys[0]).ids(), keys.drop_first())
}

/// Saturating increment of the recomputation counter.
pub open spec fn bump(c: u64) -> u64 {
    if c == u64::MAX {
        c
    } else {
        (c + 1) as u64
    }
}

struct CacheEntry {
    keys: Vec<u64>,
    stamps: Vec<u64>,
    ids: Vec<usize>,
}

/// Per-consumer query cache.  Entries are created lazily on first query for
/// a key tuple and are never evicted.
pub struct EntityIdAccessor {
    entries: Vec<CacheEntry>,
    recomputations: u64,
}

impl EntityIdAccessor {
    /// The cached key tuples, in creation order.
    pub closed spec fn kmap(self) -> Seq<Seq<u64>> {
        self.entries@.map(|i: int, e: CacheEntry| e.keys@)
    }

    pub open spec fn has_entry(self, keys: Seq<u64>) -> bool {
        self.kmap().contains(keys)
    }

    pub closed spec fn cached_pos(self, keys: Seq<u64>) -> int {
        seq_first_pos(self.kmap(), keys)
    }

    pub closed spec fn entry_ids(self, keys: Seq<u64>) -> Seq<usize> {
        self.entries@[self.cached_pos(keys)].ids@
    }

    pub closed spec fn entry_stamps(self, keys: Seq<u64>) -> Seq<u64> {
        self.entries@[self.cached_pos(keys)].stamps@
    }

    pub closed spec fn spec_recomputations(self) -> u64 {
        self.recomputations
    }

    pub closed spec fn wf(self) -> bool {
        &&& seq_distinct(self.kmap())
        &&& forall|i: int|
            0 <= i < self.entries@.len() ==> (#[trigger] self.entries@[i]).stamps@.len()
                == self.entries@[i].keys@.len()
    }

    pub fn new() -> (r: Self)
        ensures
            r.wf(),
            r.kmap() == Seq::<Seq<u64>>::empty(),
            r.spec_recomputations() == 0,
    {
        let r = EntityIdAccessor { entries: Vec::new(), recomputations: 0 };
        proof {
            assert(r.kmap() =~= Seq::<Seq<u64>>::empty());
        }
        r
    }

    /// How often a query had to be recomputed rather than served from the
    /// cache (saturating).
    pub fn recompute_count(&self) -> (r: u64)
        ensures
            r == self.spec_recomputations(),
    {
        self.recomputations
    }
}

impl Default for EntityIdAccessor {
    fn default() -> (r: Self)
        ensures
            r.wf(),
            r.kmap() == Seq::<Seq<u64>>::empty(),
            r.spec_recomputations() == 0,
    {
        EntityIdAccessor::new()
    }
}

/// A cache entry must be recomputed when it does not exist yet, or when a
/// participating store's stamp advanced past the recorded one.
pub open spec fn needs_recompute<C>(
    pre: EntityIdAccessor,
    m: EntityManager<C>,
    keys: Seq<u64>,
) -> bool {
    !pre.has_entry(keys) || stale(pre.entry_stamps(keys), stamps_for(m, keys))
}

/// The full effect of one cache query for `keys`, with `returned` the
/// result sequence if any: absence exactly when some key is unregistered
/// (leaving the cache untouched); otherwise the entry holds the returned
/// ids, freshly recomputed to the semantic query result if and only if a
/// participating stamp advanced (bumping the recomputation counter), served
/// unchanged from the cache otherwise; every other entry is untouched.
pub open spec fn query_post<C>(
    pre: EntityIdAccessor,
    post: EntityIdAccessor,
    m: EntityManager<C>,
    keys: Seq<u64>,
    returned: Option<Seq<usize>>,
) -> bool {
    &&& (returned is Some <==> (forall|j: int|
        0 <= j < keys.len() ==> m.registered(#[trigger] keys[j])))
    &&& returned is None ==> post == pre
    &&& returned is Some ==> {
        &&& post.has_entry(keys)
        &&& returned.unwrap() == post.entry_ids(keys)
        &&& needs_recompute(pre, m, keys) ==> returned.unwrap() == query_result(m, keys)
            && post.entry_stamps(keys) == stamps_for(m, keys)
        &&& !needs_recompute(pre, m, keys) ==> returned.unwrap() == pre.entry_ids(keys)
            && post.entry_stamps(keys) == pre.entry_stamps(keys)
        &&& post.spec_recomputations() == (if needs_recompute(pre, m, keys) {
            bump(pre.spec_recomputations())
        } else {
            pre.spec_recomputations()
        })
        &&& forall|other: Seq<u64>|
            #[trigger] pre.has_entry(other) && other != keys ==> post.has_entry(other)
                && post.entry_ids(other) == pre.entry_ids(other) && post.entry_stamps(other)
                == pre.entry_stamps(other)
        &&& forall|other: Seq<u64>|
            !pre.has_entry(other) && other != keys ==> !(#[trigger] post.has_entry(other))
    }
}

fn keys_eq(a: &Vec<u64>, b: &Vec<u64>) -> (r: bool)
    ensures
        r == (a@ == b@),
{
    if a.len() != b.len() {
        return false;
    }
    let mut i: usize = 0;
    while i < a.len()
        invariant
            i <= a@.len(),
            a@.len() == b@.len(),
            forall|q: int| 0 <= q < i ==> a@[q] == b@[q],
        decreases a@.len() - i,
    {
        if a[i] != b[i] {
            return false;
        }
        i = i + 1;
    }
    proof {
        assert(a@ =~= b@);
    }
    true
}

fn copy_keys(v: &Vec<u64>) -> (r: Vec<u64>)
    ensures
        r@ == v@,
{
    let mut r: Vec<u64> = Vec::new();
    let mut i: usize = 0;
    while i < v.len()
        invariant
            i <= v@.len(),
            r@ == v@.subrange(0, i as int),
        decreases v@.len() - i,
    {
        r.push(v[i]);
        proof {
            assert(r@ =~= v@.subrange(0, i + 1));
        }
        i = i + 1;
    }
    proof {
        assert(v@.subrange(0, v@.len() as int) =~= v@);
    }
    r
}

impl EntityIdAccessor {
    #[verifier::loop_isolation(false)]
    fn borrow_ids_for_keys<C>(&mut self, manager: &EntityManager<C>, query_keys: Vec<u64>) -> (r:
        Option<&Vec<usize>>)
        requires
            old(self).wf(),
            manager.wf(),
            query_keys@.len() >= 1,
        ensures
            final(self).wf(),
            query_post(
                *old(self),
                *final(self),
                *manager,
                query_keys@,
                (if r is Some {
                    Some(r.unwrap()@)
                } else {
                    None
                }),
            ),
    {
        let ghost keysv = query_keys@;
        let ghost m = *manager;
        // every queried key must be registered, else absence
        let mut j: usize = 0;
        while j < query_keys.len()
            invariant
                j <= query_keys@.len(),
                forall|q: int| 0 <= q < j ==> m.registered(#[trigger] query_keys@[q]),
                *self == *old(self),
                manager.wf(),
                m == *manager,
            decreases query_keys@.len() - j,
        {
            if !manager.has_component_manager(query_keys[j]) {
                return None;
            }
            j = j + 1;
        }
        // locate the entry for this exact key tuple
        let mut pos: usize = 0;
        let mut found = false;
        let mut i: usize = 0;
        while i < self.entries.len() && !found
            invariant
                *self == *old(self),
                i <= self.entries@.len(),
                !found ==> forall|q: int| 0 <= q < i ==> self.kmap()[q] != keysv,
                found ==> (pos as int) < self.entries@.len() && self.kmap()[pos as int] == keysv,
                keysv == query_keys@,
            decreases self.entries@.len() - i + (if found {
                0int
            } else {
                1int
            }),
        {
            if keys_eq(&self.entries[i].keys, &query_keys) {
                pos = i;
                found = true;
                proof {
                    assert(self.kmap()[i as int] == self.entries@[i as int].keys@);
                }
            } else {
                proof {
                    assert(self.kmap()[i as int] == self.entries@[i as int].keys@);
                }
                i = i + 1;
            }
        }
        proof {
            if !found {
                if old(self).has_entry(keysv) {
                    let w = choose|w: int|
                        0 <= w < old(self).kmap().len() && old(self).kmap()[w] == keysv;
                    assert(self.kmap()[w] != keysv);
                }
                assert(!old(self).has_entry(keysv));
            } else {
                assert(old(self).has_entry(keysv));
                lemma_seq_first_pos_unique(old(self).kmap(), keysv, pos as int);
            }
        }
        // create the entry lazily
        if !found {
            pos = self.entries.len();
            let copied = copy_keys(&query_keys);
            self.entries.push(CacheEntry { keys: copied, stamps: Vec::new(), ids: Vec::new() });
            proof {
                assert(self.kmap() =~= old(self).kmap().push(keysv));
                assert forall|a: int, b: int| 0 <= a < b < self.kmap().len() implies self.kmap()[a]
                    != self.kmap()[b] by {
                    if b < old(self).kmap().len() {
                        assert(old(self).kmap()[a] != old(self).kmap()[b]);
                    } else {
                        assert(self.kmap()[b] == keysv);
                        assert(old(self).kmap()[a] != keysv);
                    }
                }
                lemma_seq_first_pos_unique(self.kmap(), keysv, pos as int);
            }
        }
        let ghost grown = *self;
        proof {
            assert(grown.kmap()[pos as int] == keysv);
            assert(seq_distinct(grown.kmap()));
        }
        // compare the recorded stamps with the stores' current ones
        let mut needs: bool = !found;
        if found {
            let mut j2: usize = 0;
            while j2 < query_keys.len()
                invariant
                    *self == grown,
                    grown == *old(self),
                    manager.wf(),
                    m == *manager,
                    keysv == query_keys@,
                    forall|q: int| 0 <= q < keysv.len() ==> m.registered(#[trigger] keysv[q]),
                    (pos as int) < self.entries@.len(),
                    self.kmap()[pos as int] == keysv,
                    self.entries@[pos as int].stamps@.len() == keysv.len(),
                    (pos as int) == old(self).cached_pos(keysv),
                    j2 <= keysv.len(),
                    needs == (exists|q: int|
                        0 <= q < j2 && stamps_for(m, keysv)[q] > self.entries@[pos as int].stamps@[q]),
                decreases query_keys@.len() - j2,
            {
                let cur = manager.get_updated_frame(query_keys[j2]);
                let rec = self.entries[pos].stamps[j2];
                if cur > rec {
                    needs = true;
                    proof {
                        assert(stamps_for(m, keysv)[j2 as int] > self.entries@[pos as int].stamps@[j2 as int]);
                    }
                }
                j2 = j2 + 1;
            }
        }
        proof {
            assert(needs == needs_recompute(*old(self), m, keysv));
        }
        // recompute: current stamps, then the filtered candidate ids
        if needs {
            let mut new_stamps: Vec<u64> = Vec::new();
            let mut j3: usize = 0;
            while j3 < query_keys.len()
                invariant
                    *self == grown,
                    manager.wf(),
                    m == *manager,
                    keysv == query_keys@,
                    forall|q: int| 0 <= q < keysv.len() ==> m.registered(#[trigger] keysv[q]),
                    j3 <= keysv.len(),
                    new_stamps@.len() == j3,
                    forall|q: int| 0 <= q < j3 ==> new_stamps@[q] == stamps_for(m, keysv)[q],
                decreases query_keys@.len() - j3,
            {
                new_stamps.push(manager.get_updated_frame(query_keys[j3]));
                j3 = j3 + 1;
            }
            proof {
                assert(new_stamps@ =~= stamps_for(m, keysv));
            }
            let cands = match manager.borrow_entity_ids(query_keys[0]) {
                Some(v) => v,
                None => vstd::pervasive::unreached(),
            };
            let ghost rest = keysv.drop_first();
            let mut dst: Vec<usize> = Vec::new();
            let mut t: usize = 0;
            while t < cands.len()
                invariant
                    *self == grown,
                    manager.wf(),
                    m == *manager,
                    keysv == query_keys@,
                    keysv.len() >= 1,
                    rest == keysv.drop_first(),
                    forall|q: int| 0 <= q < keysv.len() ==> m.registered(#[trigger] keysv[q]),
                    t <= cands@.len(),
                    cands@ == m.store_of(keysv[0]).ids(),
                    dst@ == query_matches(m, cands@.subrange(0, t as int), rest),
                decreases cands@.len() - t,
            {
                let id = cands[t];
                let mut ok = true;
                let mut j4: usize = 1;
                while j4 < query_keys.len()
                    invariant
                        manager.wf(),
                        m == *manager,
                        keysv == query_keys@,
                        forall|q: int| 0 <= q < keysv.len() ==> m.registered(#[trigger] keysv[q]),
                        1 <= j4 <= keysv.len(),
                        ok == (forall|q: int|
                            1 <= q < j4 ==> m.store_of(#[trigger] keysv[q]).spec_has(id)),
                    decreases query_keys@.len() - j4,
                {
                    if manager.borrow_component(query_keys[j4], id).is_none() {
                        ok = false;
                    }
                    j4 = j4 + 1;
                }
                proof {
                    assert forall|q: int| 0 <= q < rest.len() implies (#[trigger] rest[q])
                        == keysv[q + 1] by {}
                    if ok {
                        assert forall|q: int| 0 <= q < rest.len() implies m.store_of(
                            #[trigger] rest[q],
                        ).spec_has(id) by {
                            assert(m.store_of(keysv[q + 1]).spec_has(id));
                        }
                    } else {
                        let w = choose|w: int|
                            1 <= w < keysv.len() && !m.store_of(keysv[w]).spec_has(id);
                        assert(rest[w - 1] == keysv[w]);
                        assert(!all_have(m, rest, id));
                    }
                    assert(cands@.subrange(0, t + 1).drop_last() =~= cands@.subrange(0, t as int));
                    assert(cands@.subrange(0, t + 1).last() == cands@[t as int]);
                }
                if ok {
                    dst.push(id);
                }
                t = t + 1;
            }
            proof {
                assert(cands@.subrange(0, cands@.len() as int) =~= cands@);
                assert(dst@ == query_result(m, keysv));
            }
            let entry = &mut self.entries[pos];
            entry.stamps = new_stamps;
            entry.ids = dst;
            if self.recomputations < u64::MAX {
                self.recomputations = self.recomputations + 1;
            }
            proof {
                assert(self.kmap() =~= grown.kmap());
            }
        }
        proof {
            assert(self.kmap()[pos as int] == keysv);
            assert(seq_distinct(self.kmap()));
            lemma_seq_first_pos_unique(self.kmap(), keysv, pos as int);
            assert forall|other: Seq<u64>| old(self).has_entry(other) && other != keysv implies
                self.has_entry(other) && self.entry_ids(other) == old(self).entry_ids(other)
                    && self.entry_stamps(other) == old(self).entry_stamps(other) by {
                lemma_seq_first_pos(old(self).kmap(), other);
                let q = seq_first_pos(old(self).kmap(), other);
                assert(self.kmap()[q] == other);
                lemma_seq_first_pos_unique(self.kmap(), other, q);
                assert(q != pos as int);
            }
            assert forall|other: Seq<u64>| !old(self).has_entry(other) && other != keysv implies !self.has_entry(
                other,
            ) by {
                if self.has_entry(other) {
                    let w = choose|w: int| 0 <= w < self.kmap().len() && self.kmap()[w] == other;
                    assert(w != pos as int);
                    assert(old(self).kmap()[w] == other);
                }
            }
        }
        Some(&self.entries[pos].ids)
    }

    /// Ids of the entities holding the component type `key`.
    pub fn borrow_ids<C>(&mut self, manager: &EntityManager<C>, key: u64) -> (r: Option<
        &Vec<usize>,
    >)
        requires
            old(self).wf(),
            manager.wf(),
        ensures
            final(self).wf(),
            query_post(
                *old(self),
                *final(self),
                *manager,
                seq![key],
                (if r is Some {
                    Some(r.unwrap()@)
                } else {
                    None
                }),
            ),
    {
        let mut qk: Vec<u64> = Vec::new();
        qk.push(key);
        proof {
            assert(qk@ =~= seq![key]);
        }
        self.borrow_ids_for_keys(manager, qk)
    }

    /// Ids of the entities holding both component types, in `key1`'s dense
    /// order.
    pub fn borrow_ids_for_pair<C>(&mut self, manager: &EntityManager<C>, key1: u64, key2: u64) -> (r:
        Option<&Vec<usize>>)
        requires
            old(self).wf(),
            manager.wf(),
        ensures
            final(self).wf(),
            query_post(
                *old(self),
                *final(self),
                *manager,
                seq![key1, key2],
                (if r is Some {
                    Some(r.unwrap()@)
                } else {
                    None
                }),
            ),
    {
        let mut qk: Vec<u64> = Vec::new();
        qk.push(key1);
        qk.push(key2);
        proof {
            assert(qk@ =~= seq![key1, key2]);
        }
        self.borrow_ids_for_keys(manager, qk)
    }

    /// Ids of the entities holding all three component types.
    pub fn borrow_ids_for_triple<C>(
        &mut self,
        manager: &EntityManager<C>,
        key1: u64,
        key2: u64,
        key3: u64,
    ) -> (r: Option<&Vec<usize>>)
        requires
            old(self).wf(),
            manager.wf(),
        ensures
            final(self).wf(),
            query_post(
                *old(self),
                *final(self),
                *manager,
                seq![key1, key2, key3],
                (if r is Some {
                    Some(r.unwrap()@)
                } else {
                    None
                }),
            ),
    {
        let mut qk: Vec<u64> = Vec::new();
        qk.push(key1);
        qk.push(key2);
        qk.push(key3);
        proof {
            assert(qk@ =~= seq![key1, key2, key3]);
        }
        self.borrow_ids_for_keys(manager, qk)
    }

    /// Ids of the entities holding all four component types.
    pub fn borrow_ids_for_quad<C>(
        &mut self,
        manager: &EntityManager<C>,
        key1: u64,
        key2: u64,
        key3: u64,
        key4: u64,
    ) -> (r: Option<&Vec<usize>>)
        requires
            old(self).wf(),
            manager.wf(),
        ensures
            final(self).wf(),
            query_post(
                *old(self),
                *final(self),
                *manager,
                seq![key1, key2, key3, key4],
                (if r is Some {
                    Some(r.unwrap()@)
                } else {
                    None
                }),
            ),
    {
        let mut qk: Vec<u64> = Vec::new();
        qk.push(key1);
        qk.push(key2);
        qk.push(key3);
        qk.push(key4);
        proof {
            assert(qk@ =~= seq![key1, key2, key3, key4]);
        }
        self.borrow_ids_for_keys(manager, qk)
    }
}

} // verus!
