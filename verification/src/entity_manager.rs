//! The central manager: it owns the entity registry, one component store
//! per registered component-type key, a frame counter, and per-key stamps
//! recording the frame at which each store last changed structurally.
//!
//! Component types are runtime keys (`u64`), so the stores live side by
//! side in one owned sequence and distinct keys name structurally disjoint
//! stores; that is what makes the simultaneous multi-type mutable accessors
//! safe, with duplicate keys rejected rather than handing out aliased
//! views.
//!
//! Stamping protocol: `add_component_to_entity` stamps the touched key with
//! the current frame; `remove_entity` stamps every key it strips with the
//! frame after the current one, so a cache computed later in the same frame
//! still refreshes on the next tick.

use crate::disjoint::{four_slice_muts, three_slice_muts, two_slice_muts};
use crate::seq_util::{lemma_seq_first_pos, lemma_seq_first_pos_unique, seq_distinct, seq_first_pos};
use crate::registry::Entities;
use crate::store::ComponentManager;
use vstd::prelude::*;

verus! {

/// One registered store and the frame at which it last changed
/// structurally.  Its key lives at the same position of the manager's key
/// sequence; the two are pushed together at registration and never removed.
struct StoreEntry<C> {
    store: ComponentManager<C>,
    updated_frame: u64,
}

pub struct EntityManager<C> {
    entities: Entities,
    type_keys: Vec<u64>,
    stores: Vec<StoreEntry<C>>,
    frame: u64,
}

impl<C> EntityManager<C> {
    /// The registered component-type keys, in registration order.
    pub closed spec fn keys(self) -> Seq<u64> {
        self.type_keys@
    }

    pub closed spec fn registry(self) -> Entities {
        self.entities
    }

    pub closed spec fn spec_frame(self) -> u64 {
        self.frame
    }

    pub open spec fn registered(self, key: u64) -> bool {
        self.keys().contains(key)
    }

    pub closed spec fn pos_of(self, key: u64) -> int {
        seq_first_pos(self.keys(), key)
    }

    /// The store registered under `key`.
    pub closed spec fn store_of(self, key: u64) -> ComponentManager<C> {
        self.stores@[self.pos_of(key)].store
    }

    /// The frame at which the store under `key` last changed structurally.
    pub closed spec fn stamp_of(self, key: u64) -> u64 {
        self.stores@[self.pos_of(key)].updated_frame
    }

    pub closed spec fn wf(self) -> bool {
        &&& self.entities.wf()
        &&& self.type_keys@.len() == self.stores@.len()
        &&& seq_distinct(self.keys())
        &&& forall|i: int| 0 <= i < self.stores@.len() ==> (#[trigger] self.stores@[i]).store.wf()
    }

    /// What a well-formed manager guarantees about one registered store.
    pub proof fn lemma_wf_store(self, key: u64)
        requires
            self.wf(),
            self.registered(key),
        ensures
            self.store_of(key).wf(),
            0 <= self.pos_of(key) < self.keys().len(),
            self.keys()[self.pos_of(key)] == key,
    {
        lemma_seq_first_pos(self.keys(), key);
    }

    /// Position facts for every registered key at once.
    proof fn lemma_all_pos(self)
        ensures
            forall|k: u64|
                self.registered(k) ==> 0 <= #[trigger] self.pos_of(k) < self.keys().len()
                    && self.keys()[self.pos_of(k)] == k,
    {
        assert forall|k: u64| self.registered(k) implies 0 <= #[trigger] self.pos_of(k)
            < self.keys().len() && self.keys()[self.pos_of(k)] == k by {
            lemma_seq_first_pos(self.keys(), k);
        }
    }

    /// All stores, stamps and keys are unchanged.
    pub open spec fn same_stores(pre: Self, post: Self) -> bool {
        &&& post.keys() == pre.keys()
        &&& forall|k: u64|
            pre.registered(k) ==> #[trigger] post.store_of(k) == pre.store_of(k) && post.stamp_of(
                k,
            ) == pre.stamp_of(k)
    }

    pub open spec fn same_registry(pre: Self, post: Self) -> bool {
        &&& post.registry().slots() == pre.registry().slots()
        &&& post.registry().free() == pre.registry().free()
    }

    fn find_store(&self, key: u64) -> (r: Option<usize>)
        requires
            self.wf(),
        ensures
            r is Some <==> self.registered(key),
            r is Some ==> (r.unwrap() as int) == self.pos_of(key) && (r.unwrap() as int)
                < self.keys().len() && self.keys()[r.unwrap() as int] == key,
    {
        let mut i: usize = 0;
        while i < self.type_keys.len()
            invariant
                i <= self.type_keys@.len(),
                forall|p: int| 0 <= p < i ==> self.keys()[p] != key,
                self.wf(),
            decreases self.type_keys@.len() - i,
        {
            if self.type_keys[i] == key {
                proof {
                    lemma_seq_first_pos_unique(self.keys(), key, i as int);
                }
                return Some(i);
            }
            i = i + 1;
        }
        proof {
            if self.registered(key) {
                let w = choose|w: int| 0 <= w < self.keys().len() && self.keys()[w] == key;
                assert(self.keys()[w] != key);
            }
        }
        None
    }

    pub fn has_component_manager(&self, key: u64) -> (r: bool)
        requires
            self.wf(),
        ensures
            r == self.registered(key),
    {
        self.find_store(key).is_some()
    }

    pub fn get_frame(&self) -> (r: u64)
        ensures
            r == self.spec_frame(),
    {
        self.frame
    }

    pub fn get_updated_frame(&self, key: u64) -> (r: u64)
        requires
            self.wf(),
            self.registered(key),
        ensures
            r == self.stamp_of(key),
    {
        let p = match self.find_store(key) {
            Some(p) => p,
            None => vstd::pervasive::unreached(),
        };
        self.stores[p].updated_frame
    }

    pub fn increment_frame(&mut self)
        requires
            old(self).wf(),
            old(self).spec_frame() < u64::MAX,
        ensures
            final(self).wf(),
            final(self).spec_frame() == old(self).spec_frame() + 1,
            Self::same_stores(*old(self), *final(self)),
            Self::same_registry(*old(self), *final(self)),
    {
        self.frame = self.frame + 1;
    }

    /// Idempotent: a fresh store and its stamp are created together when
    /// `key` is new, with the stamp initialized to the current frame.
    pub fn register(&mut self, key: u64)
        requires
            old(self).wf(),
        ensures
            final(self).wf(),
            final(self).registered(key),
            final(self).spec_frame() == old(self).spec_frame(),
            Self::same_registry(*old(self), *final(self)),
            old(self).registered(key) ==> Self::same_stores(*old(self), *final(self)),
            !old(self).registered(key) ==> {
                &&& final(self).keys() == old(self).keys().push(key)
                &&& final(self).store_of(key).ids() == Seq::<usize>::empty()
                &&& final(self).store_of(key).vals() == Seq::<C>::empty()
                &&& final(self).store_of(key).lookup() == Seq::<Option<usize>>::empty()
                &&& final(self).stamp_of(key) == old(self).spec_frame()
                &&& forall|k: u64|
                    old(self).registered(k) ==> #[trigger] final(self).store_of(k) == old(self).store_of(k) && final(self).stamp_of(k) == old(self).stamp_of(k)
            },
    {
        if self.has_component_manager(key) {
            return ;
        }
        let ghost pre = *self;
        self.type_keys.push(key);
        self.stores.push(StoreEntry { store: ComponentManager::new(), updated_frame: self.frame });
        proof {
            let n = pre.keys().len() as int;
            assert forall|i: int, j: int| 0 <= i < j < self.keys().len() implies self.keys()[i]
                != self.keys()[j] by {
                if j < n {
                    assert(pre.keys()[i] != pre.keys()[j]);
                } else {
                    assert(self.keys()[j] == key);
                    assert(!pre.keys().contains(key));
                    assert(pre.keys()[i] != key);
                }
            }
            lemma_seq_first_pos_unique(self.keys(), key, n);
            assert(self.keys()[n] == key);
            assert(self.keys().contains(key));
            assert forall|k: u64| pre.registered(k) implies #[trigger] self.store_of(k)
                == pre.store_of(k) && self.stamp_of(k) == pre.stamp_of(k) by {
                lemma_seq_first_pos(pre.keys(), k);
                let p = seq_first_pos(pre.keys(), k);
                assert(self.keys()[p] == pre.keys()[p]);
                lemma_seq_first_pos_unique(self.keys(), k, p);
            }
        }
    }

    pub fn create_entity(&mut self) -> (r: usize)
        requires
            old(self).wf(),
        ensures
            final(self).wf(),
            Entities::create_effect(old(self).registry(), final(self).registry(), r),
            final(self).spec_frame() == old(self).spec_frame(),
            Self::same_stores(*old(self), *final(self)),
    {
        self.entities.create()
    }

    /// Strips `entity_id`'s component from every store that holds one,
    /// stamping each such store with the frame after the current one, then
    /// frees the id in the registry.
    pub fn remove_entity(&mut self, entity_id: usize)
        requires
            old(self).wf(),
            old(self).spec_frame() < u64::MAX,
        ensures
            final(self).wf(),
            final(self).spec_frame() == old(self).spec_frame(),
            final(self).keys() == old(self).keys(),
            Entities::remove_effect(old(self).registry(), final(self).registry(), entity_id),
            forall|k: u64|
                old(self).registered(k) ==> ComponentManager::<C>::remove_effect(
                    old(self).store_of(k),
                    #[trigger] final(self).store_of(k),
                    entity_id,
                ),
            forall|k: u64|
                old(self).registered(k) ==> #[trigger] final(self).stamp_of(k) == (
                if old(self).store_of(k).spec_has(entity_id) {
                    old(self).spec_frame() + 1
                } else {
                    old(self).stamp_of(k) as int
                }),
    {
        let frame = self.frame;
        let mut i: usize = 0;
        while i < self.stores.len()
            invariant
                old(self).wf(),
                old(self).spec_frame() < u64::MAX,
                frame == old(self).frame,
                self.frame == old(self).frame,
                self.entities == old(self).entities,
                self.type_keys == old(self).type_keys,
                self.stores@.len() == old(self).stores@.len(),
                i <= self.stores@.len(),
                forall|p: int|
                    i <= p < self.stores@.len() ==> #[trigger] self.stores@[p] == old(self).stores@[p],
                forall|p: int|
                    0 <= p < i ==> (#[trigger] self.stores@[p]).store.wf()
                        && ComponentManager::<C>::remove_effect(
                        old(self).stores@[p].store,
                        self.stores@[p].store,
                        entity_id,
                    ) && self.stores@[p].updated_frame == (
                    if old(self).stores@[p].store.spec_has(entity_id) {
                        old(self).frame + 1
                    } else {
                        old(self).stores@[p].updated_frame as int
                    }),
            decreases self.stores@.len() - i,
        {
            let entry = &mut self.stores[i];
            if entry.store.component_exists(entity_id) {
                entry.store.remove(entity_id);
                entry.updated_frame = frame + 1;
            }
            i = i + 1;
        }
        self.entities.remove(entity_id);
        proof {
            old(self).lemma_all_pos();
        }
    }

    /// A no-op when `key` was never registered: the caller gets an
    /// untouched manager (absence is the only signal).  Otherwise the
    /// component is stored under `entity_id` and the key's stamp becomes
    /// the current frame.
    pub fn add_component_to_entity(&mut self, key: u64, entity_id: usize, component: C)
        requires
            old(self).wf(),
        ensures
            final(self).wf(),
            final(self).spec_frame() == old(self).spec_frame(),
            final(self).keys() == old(self).keys(),
            Self::same_registry(*old(self), *final(self)),
            !old(self).registered(key) ==> Self::same_stores(*old(self), *final(self)),
            old(self).registered(key) ==> {
                &&& ComponentManager::<C>::add_effect(
                    old(self).store_of(key),
                    final(self).store_of(key),
                    entity_id,
                    component,
                )
                &&& final(self).stamp_of(key) == old(self).spec_frame()
                &&& forall|k: u64|
                    k != key && old(self).registered(k) ==> #[trigger] final(self).store_of(k)
                        == old(self).store_of(k) && final(self).stamp_of(k) == old(self).stamp_of(k)
            },
    {
        let p = match self.find_store(key) {
            Some(p) => p,
            None => {
                return ;
            },
        };
        let frame = self.frame;
        proof {
            self.lemma_all_pos();
        }
        let entry = &mut self.stores[p];
        entry.store.add(entity_id, component);
        entry.updated_frame = frame;
    }

    /// Shared access to the whole store registered under `key`.
    pub fn borrow_component_manager(&self, key: u64) -> (r: &ComponentManager<C>)
        requires
            self.wf(),
            self.registered(key),
        ensures
            *r == self.store_of(key),
    {
        let p = match self.find_store(key) {
            Some(p) => p,
            None => vstd::pervasive::unreached(),
        };
        &self.stores[p].store
    }

    /// Exclusive access to the whole store registered under `key`.  The
    /// manager is well formed again exactly when the store is left well
    /// formed.
    pub fn borrow_component_manager_mut(&mut self, key: u64) -> (r: &mut ComponentManager<C>)
        requires
            old(self).wf(),
            old(self).registered(key),
        ensures
            *r == old(self).store_of(key),
            final(self).keys() == old(self).keys(),
            final(self).spec_frame() == old(self).spec_frame(),
            Self::same_registry(*old(self), *final(self)),
            final(self).store_of(key) == *final(r),
            final(self).stamp_of(key) == old(self).stamp_of(key),
            forall|k: u64|
                old(self).registered(k) ==> #[trigger] final(self).stamp_of(k) == old(self).stamp_of(k),
            forall|k: u64|
                k != key && old(self).registered(k) ==> #[trigger] final(self).store_of(k) == old(self).store_of(k),
            final(r).wf() ==> final(self).wf(),
    {
        let p = match self.find_store(key) {
            Some(p) => p,
            None => vstd::pervasive::unreached(),
        };
        proof {
            self.lemma_all_pos();
        }
        let entry = &mut self.stores[p];
        &mut entry.store
    }

    pub fn borrow_entity_ids(&self, key: u64) -> (r: Option<&Vec<usize>>)
        requires
            self.wf(),
        ensures
            r is Some <==> self.registered(key),
            r is Some ==> r.unwrap()@ == self.store_of(key).ids(),
    {
        match self.find_store(key) {
            Some(p) => Some(self.stores[p].store.borrow_entity_ids()),
            None => None,
        }
    }

    pub fn borrow_component(&self, key: u64, entity_id: usize) -> (r: Option<&C>)
        requires
            self.wf(),
        ensures
            r is Some <==> self.registered(key) && self.store_of(key).spec_has(entity_id),
            r is Some ==> self.store_of(key).spec_get(entity_id) == Some(*r.unwrap()),
    {
        match self.find_store(key) {
            Some(p) => self.stores[p].store.borrow_component(entity_id),
            None => None,
        }
    }

    pub fn borrow_component_mut(&mut self, key: u64, entity_id: usize) -> (r: Option<&mut C>)
        requires
            old(self).wf(),
        ensures
            r is Some <==> old(self).registered(key) && old(self).store_of(key).spec_has(entity_id),
            r is None ==> *final(self) == *old(self),
            r is Some ==> {
                &&& *r.unwrap() == old(self).store_of(key).spec_get(entity_id).unwrap()
                &&& final(self).wf()
                &&& final(self).keys() == old(self).keys()
                &&& final(self).spec_frame() == old(self).spec_frame()
                &&& Self::same_registry(*old(self), *final(self))
                &&& final(self).store_of(key).ids() == old(self).store_of(key).ids()
                &&& final(self).store_of(key).lookup() == old(self).store_of(key).lookup()
                &&& final(self).store_of(key).vals() == old(self).store_of(key).vals().update(
                    old(self).store_of(key).spec_index_of(entity_id),
                    *final(r.unwrap()),
                )
                &&& forall|k: u64|
                    old(self).registered(k) ==> #[trigger] final(self).stamp_of(k) == old(self).stamp_of(k)
                &&& forall|k: u64|
                    k != key && old(self).registered(k) ==> #[trigger] final(self).store_of(k)
                        == old(self).store_of(k)
            },
    {
        let p = match self.find_store(key) {
            Some(p) => p,
            None => {
                return None;
            },
        };
        let present = self.stores[p].store.component_exists(entity_id);
        if !present {
            return None;
        }
        proof {
            self.lemma_all_pos();
        }
        let entry = &mut self.stores[p];
        entry.store.borrow_component_mut(entity_id)
    }

    pub fn borrow_components(&self, key: u64) -> (r: Option<&Vec<C>>)
        requires
            self.wf(),
        ensures
            r is Some <==> self.registered(key),
            r is Some ==> r.unwrap()@ == self.store_of(key).vals(),
    {
        match self.find_store(key) {
            Some(p) => Some(self.stores[p].store.borrow_components()),
            None => None,
        }
    }

    /// Bulk mutable access to one store's dense value sequence.  The
    /// manager is well formed again exactly when the caller leaves the
    /// sequence's length unchanged.
    pub fn borrow_components_mut(&mut self, key: u64) -> (r: Option<&mut Vec<C>>)
        requires
            old(self).wf(),
        ensures
            r is Some <==> old(self).registered(key),
            r is None ==> *final(self) == *old(self),
            r is Some ==> {
                &&& r.unwrap()@ == old(self).store_of(key).vals()
                &&& final(self).keys() == old(self).keys()
                &&& final(self).spec_frame() == old(self).spec_frame()
                &&& Self::same_registry(*old(self), *final(self))
                &&& final(self).store_of(key).ids() == old(self).store_of(key).ids()
                &&& final(self).store_of(key).lookup() == old(self).store_of(key).lookup()
                &&& final(self).store_of(key).vals() == final(r.unwrap())@
                &&& forall|k: u64|
                    old(self).registered(k) ==> #[trigger] final(self).stamp_of(k) == old(self).stamp_of(k)
                &&& forall|k: u64|
                    k != key && old(self).registered(k) ==> #[trigger] final(self).store_of(k)
                        == old(self).store_of(k)
                &&& final(r.unwrap())@.len() == old(self).store_of(key).vals().len() ==> final(self).wf()
            },
    {
        let p = match self.find_store(key) {
            Some(p) => p,
            None => {
                return None;
            },
        };
        proof {
            self.lemma_all_pos();
        }
        let entry = &mut self.stores[p];
        Some(entry.store.borrow_components_mut())
    }

    /// Simultaneous bulk mutable access to two distinct stores.  Duplicate
    /// keys are rejected with absence rather than aliased views.
    pub fn borrow_components_pair_mut(&mut self, key1: u64, key2: u64) -> (r: Option<
        (&mut Vec<C>, &mut Vec<C>),
    >)
        requires
            old(self).wf(),
        ensures
            r is Some <==> old(self).registered(key1) && old(self).registered(key2) && key1 != key2,
            r is None ==> *final(self) == *old(self),
            r is Some ==> {
                &&& r.unwrap().0@ == old(self).store_of(key1).vals()
                &&& r.unwrap().1@ == old(self).store_of(key2).vals()
                &&& final(self).keys() == old(self).keys()
                &&& final(self).spec_frame() == old(self).spec_frame()
                &&& Self::same_registry(*old(self), *final(self))
                &&& final(self).store_of(key1).ids() == old(self).store_of(key1).ids()
                &&& final(self).store_of(key1).lookup() == old(self).store_of(key1).lookup()
                &&& final(self).store_of(key1).vals() == final(r.unwrap().0)@
                &&& final(self).store_of(key2).ids() == old(self).store_of(key2).ids()
                &&& final(self).store_of(key2).lookup() == old(self).store_of(key2).lookup()
                &&& final(self).store_of(key2).vals() == final(r.unwrap().1)@
                &&& forall|k: u64|
                    old(self).registered(k) ==> #[trigger] final(self).stamp_of(k) == old(self).stamp_of(k)
                &&& forall|k: u64|
                    k != key1 && k != key2 && old(self).registered(k) ==> #[trigger] final(self).store_of(k) == old(self).store_of(k)
                &&& (final(r.unwrap().0)@.len() == old(self).store_of(key1).vals().len() && final(r.unwrap().1)@.len() == old(self).store_of(key2).vals().len()) ==> final(self).wf()
            },
    {
        if key1 == key2 {
            return None;
        }
        let p1 = match self.find_store(key1) {
            Some(p) => p,
            None => {
                return None;
            },
        };
        let p2 = match self.find_store(key2) {
            Some(p) => p,
            None => {
                return None;
            },
        };
        proof {
            self.lemma_all_pos();
        }
        let (e1, e2) = two_slice_muts(self.stores.as_mut_slice(), p1, p2);
        let v1 = e1.store.borrow_components_mut();
        let v2 = e2.store.borrow_components_mut();
        Some((v1, v2))
    }

    /// Simultaneous bulk mutable access to three pairwise-distinct stores.
    pub fn borrow_components_triple_mut(&mut self, key1: u64, key2: u64, key3: u64) -> (r: Option<
        (&mut Vec<C>, &mut Vec<C>, &mut Vec<C>),
    >)
        requires
            old(self).wf(),
        ensures
            r is Some <==> old(self).registered(key1) && old(self).registered(key2) && old(self).registered(key3) && key1 != key2 && key1 != key3 && key2 != key3,
            r is None ==> *final(self) == *old(self),
            r is Some ==> {
                &&& r.unwrap().0@ == old(self).store_of(key1).vals()
                &&& r.unwrap().1@ == old(self).store_of(key2).vals()
                &&& r.unwrap().2@ == old(self).store_of(key3).vals()
                &&& final(self).keys() == old(self).keys()
                &&& final(self).spec_frame() == old(self).spec_frame()
                &&& Self::same_registry(*old(self), *final(self))
                &&& final(self).store_of(key1).ids() == old(self).store_of(key1).ids()
                &&& final(self).store_of(key1).lookup() == old(self).store_of(key1).lookup()
                &&& final(self).store_of(key1).vals() == final(r.unwrap().0)@
                &&& final(self).store_of(key2).ids() == old(self).store_of(key2).ids()
                &&& final(self).store_of(key2).lookup() == old(self).store_of(key2).lookup()
                &&& final(self).store_of(key2).vals() == final(r.unwrap().1)@
                &&& final(self).store_of(key3).ids() == old(self).store_of(key3).ids()
                &&& final(self).store_of(key3).lookup() == old(self).store_of(key3).lookup()
                &&& final(self).store_of(key3).vals() == final(r.unwrap().2)@
                &&& forall|k: u64|
                    old(self).registered(k) ==> #[trigger] final(self).stamp_of(k) == old(self).stamp_of(k)
                &&& forall|k: u64|
                    k != key1 && k != key2 && k != key3 && old(self).registered(k)
                        ==> #[trigger] final(self).store_of(k) == old(self).store_of(k)
                &&& (final(r.unwrap().0)@.len() == old(self).store_of(key1).vals().len() && final(r.unwrap().1)@.len() == old(self).store_of(key2).vals().len() && final(r.unwrap().2)@.len()
                    == old(self).store_of(key3).vals().len()) ==> final(self).wf()
            },
    {
        if key1 == key2 || key1 == key3 || key2 == key3 {
            return None;
        }
        let p1 = match self.find_store(key1) {
            Some(p) => p,
            None => {
                return None;
            },
        };
        let p2 = match self.find_store(key2) {
            Some(p) => p,
            None => {
                return None;
            },
        };
        let p3 = match self.find_store(key3) {
            Some(p) => p,
            None => {
                return None;
            },
        };
        proof {
            self.lemma_all_pos();
        }
        let (e1, e2, e3) = three_slice_muts(self.stores.as_mut_slice(), p1, p2, p3);
        let v1 = e1.store.borrow_components_mut();
        let v2 = e2.store.borrow_components_mut();
        let v3 = e3.store.borrow_components_mut();
        Some((v1, v2, v3))
    }

    /// Simultaneous bulk mutable access to four pairwise-distinct stores.
    pub fn borrow_components_quad_mut(&mut self, key1: u64, key2: u64, key3: u64, key4: u64) -> (r:
        Option<(&mut Vec<C>, &mut Vec<C>, &mut Vec<C>, &mut Vec<C>)>)
        requires
            old(self).wf(),
        ensures
            r is Some <==> old(self).registered(key1) && old(self).registered(key2) && old(self).registered(key3) && old(self).registered(key4) && key1 != key2 && key1 != key3
                && key1 != key4 && key2 != key3 && key2 != key4 && key3 != key4,
            r is None ==> *final(self) == *old(self),
            r is Some ==> {
                &&& r.unwrap().0@ == old(self).store_of(key1).vals()
                &&& r.unwrap().1@ == old(self).store_of(key2).vals()
                &&& r.unwrap().2@ == old(self).store_of(key3).vals()
                &&& r.unwrap().3@ == old(self).store_of(key4).vals()
                &&& final(self).keys() == old(self).keys()
                &&& final(self).spec_frame() == old(self).spec_frame()
                &&& Self::same_registry(*old(self), *final(self))
                &&& final(self).store_of(key1).ids() == old(self).store_of(key1).ids()
                &&& final(self).store_of(key1).lookup() == old(self).store_of(key1).lookup()
                &&& final(self).store_of(key1).vals() == final(r.unwrap().0)@
                &&& final(self).store_of(key2).ids() == old(self).store_of(key2).ids()
                &&& final(self).store_of(key2).lookup() == old(self).store_of(key2).lookup()
                &&& final(self).store_of(key2).vals() == final(r.unwrap().1)@
                &&& final(self).store_of(key3).ids() == old(self).store_of(key3).ids()
                &&& final(self).store_of(key3).lookup() == old(self).store_of(key3).lookup()
                &&& final(self).store_of(key3).vals() == final(r.unwrap().2)@
                &&& final(self).store_of(key4).ids() == old(self).store_of(key4).ids()
                &&& final(self).store_of(key4).lookup() == old(self).store_of(key4).lookup()
                &&& final(self).store_of(key4).vals() == final(r.unwrap().3)@
                &&& forall|k: u64|
                    old(self).registered(k) ==> #[trigger] final(self).stamp_of(k) == old(self).stamp_of(k)
                &&& forall|k: u64|
                    k != key1 && k != key2 && k != key3 && k != key4 && old(self).registered(k)
                        ==> #[trigger] final(self).store_of(k) == old(self).store_of(k)
                &&& (final(r.unwrap().0)@.len() == old(self).store_of(key1).vals().len() && final(r.unwrap().1)@.len() == old(self).store_of(key2).vals().len() && final(r.unwrap().2)@.len()
                    == old(self).store_of(key3).vals().len() && final(r.unwrap().3)@.len() == old(self).store_of(key4).vals().len()) ==> final(self).wf()
            },
    {
        if key1 == key2 || key1 == key3 || key1 == key4 || key2 == key3 || key2 == key4 || key3
            == key4 {
            return None;
        }
        let p1 = match self.find_store(key1) {
            Some(p) => p,
            None => {
                return None;
            },
        };
        let p2 = match self.find_store(key2) {
            Some(p) => p,
            None => {
                return None;
            },
        };
        let p3 = match self.find_store(key3) {
            Some(p) => p,
            None => {
                return None;
            },
        };
        let p4 = match self.find_store(key4) {
            Some(p) => p,
            None => {
                return None;
            },
        };
        proof {
            self.lemma_all_pos();
        }
        let (e1, e2, e3, e4) = four_slice_muts(self.stores.as_mut_slice(), p1, p2, p3, p4);
        let v1 = e1.store.borrow_components_mut();
        let v2 = e2.store.borrow_components_mut();
        let v3 = e3.store.borrow_components_mut();
        let v4 = e4.store.borrow_components_mut();
        Some((v1, v2, v3, v4))
    }

    /// Mutable access to one entity's components of two distinct types at
    /// once.  Absence when a key is unregistered, repeated, or the entity
    /// lacks one of the components.
    pub fn borrow_component_pair_mut(&mut self, key1: u64, key2: u64, entity_id: usize) -> (r:
        Option<(&mut C, &mut C)>)
        requires
            old(self).wf(),
        ensures
            r is Some <==> old(self).registered(key1) && old(self).registered(key2) && key1 != key2
                && old(self).store_of(key1).spec_has(entity_id) && old(self).store_of(
                key2,
            ).spec_has(entity_id),
            r is None ==> *final(self) == *old(self),
            r is Some ==> {
                &&& *r.unwrap().0 == old(self).store_of(key1).spec_get(entity_id).unwrap()
                &&& *r.unwrap().1 == old(self).store_of(key2).spec_get(entity_id).unwrap()
                &&& final(self).wf()
                &&& final(self).keys() == old(self).keys()
                &&& final(self).spec_frame() == old(self).spec_frame()
                &&& Self::same_registry(*old(self), *final(self))
                &&& final(self).store_of(key1).ids() == old(self).store_of(key1).ids()
                &&& final(self).store_of(key1).lookup() == old(self).store_of(key1).lookup()
                &&& final(self).store_of(key1).vals() == old(self).store_of(key1).vals().update(
                    old(self).store_of(key1).spec_index_of(entity_id),
                    *final(r.unwrap().0),
                )
                &&& final(self).store_of(key2).ids() == old(self).store_of(key2).ids()
                &&& final(self).store_of(key2).lookup() == old(self).store_of(key2).lookup()
                &&& final(self).store_of(key2).vals() == old(self).store_of(key2).vals().update(
                    old(self).store_of(key2).spec_index_of(entity_id),
                    *final(r.unwrap().1),
                )
                &&& forall|k: u64|
                    old(self).registered(k) ==> #[trigger] final(self).stamp_of(k) == old(self).stamp_of(k)
                &&& forall|k: u64|
                    k != key1 && k != key2 && old(self).registered(k) ==> #[trigger] final(self).store_of(k)
                        == old(self).store_of(k)
            },
    {
        if key1 == key2 {
            return None;
        }
        let p1 = match self.find_store(key1) {
            Some(p) => p,
            None => {
                return None;
            },
        };
        let p2 = match self.find_store(key2) {
            Some(p) => p,
            None => {
                return None;
            },
        };
        if !self.stores[p1].store.component_exists(entity_id) {
            return None;
        }
        if !self.stores[p2].store.component_exists(entity_id) {
            return None;
        }
        proof {
            self.lemma_all_pos();
        }
        let (e1, e2) = two_slice_muts(self.stores.as_mut_slice(), p1, p2);
        let c1 = match e1.store.borrow_component_mut(entity_id) {
            Some(c) => c,
            None => vstd::pervasive::unreached(),
        };
        let c2 = match e2.store.borrow_component_mut(entity_id) {
            Some(c) => c,
            None => vstd::pervasive::unreached(),
        };
        Some((c1, c2))
    }

    /// Mutable access to one entity's components of three pairwise-distinct
    /// types at once.
    pub fn borrow_component_triple_mut(
        &mut self,
        key1: u64,
        key2: u64,
        key3: u64,
        entity_id: usize,
    ) -> (r: Option<(&mut C, &mut C, &mut C)>)
        requires
            old(self).wf(),
        ensures
            r is Some <==> old(self).registered(key1) && old(self).registered(key2) && old(
                self,
            ).registered(key3) && key1 != key2 && key1 != key3 && key2 != key3 && old(
                self,
            ).store_of(key1).spec_has(entity_id) && old(self).store_of(key2).spec_has(entity_id)
                && old(self).store_of(key3).spec_has(entity_id),
            r is None ==> *final(self) == *old(self),
            r is Some ==> {
                &&& *r.unwrap().0 == old(self).store_of(key1).spec_get(entity_id).unwrap()
                &&& *r.unwrap().1 == old(self).store_of(key2).spec_get(entity_id).unwrap()
                &&& *r.unwrap().2 == old(self).store_of(key3).spec_get(entity_id).unwrap()
                &&& final(self).wf()
                &&& final(self).keys() == old(self).keys()
                &&& final(self).spec_frame() == old(self).spec_frame()
                &&& Self::same_registry(*old(self), *final(self))
                &&& final(self).store_of(key1).ids() == old(self).store_of(key1).ids()
                &&& final(self).store_of(key1).lookup() == old(self).store_of(key1).lookup()
                &&& final(self).store_of(key1).vals() == old(self).store_of(key1).vals().update(
                    old(self).store_of(key1).spec_index_of(entity_id),
                    *final(r.unwrap().0),
                )
                &&& final(self).store_of(key2).ids() == old(self).store_of(key2).ids()
                &&& final(self).store_of(key2).lookup() == old(self).store_of(key2).lookup()
                &&& final(self).store_of(key2).vals() == old(self).store_of(key2).vals().update(
                    old(self).store_of(key2).spec_index_of(entity_id),
                    *final(r.unwrap().1),
                )
                &&& final(self).store_of(key3).ids() == old(self).store_of(key3).ids()
                &&& final(self).store_of(key3).lookup() == old(self).store_of(key3).lookup()
                &&& final(self).store_of(key3).vals() == old(self).store_of(key3).vals().update(
                    old(self).store_of(key3).spec_index_of(entity_id),
                    *final(r.unwrap().2),
                )
                &&& forall|k: u64|
                    old(self).registered(k) ==> #[trigger] final(self).stamp_of(k) == old(self).stamp_of(k)
                &&& forall|k: u64|
                    k != key1 && k != key2 && k != key3 && old(self).registered(k)
                        ==> #[trigger] final(self).store_of(k) == old(self).store_of(k)
            },
    {
        if key1 == key2 || key1 == key3 || key2 == key3 {
            return None;
        }
        let p1 = match self.find_store(key1) {
            Some(p) => p,
            None => {
                return None;
            },
        };
        let p2 = match self.find_store(key2) {
            Some(p) => p,
            None => {
                return None;
            },
        };
        let p3 = match self.find_store(key3) {
            Some(p) => p,
            None => {
                return None;
            },
        };
        if !self.stores[p1].store.component_exists(entity_id) {
            return None;
        }
        if !self.stores[p2].store.component_exists(entity_id) {
            return None;
        }
        if !self.stores[p3].store.component_exists(entity_id) {
            return None;
        }
        proof {
            self.lemma_all_pos();
        }
        let (e1, e2, e3) = three_slice_muts(self.stores.as_mut_slice(), p1, p2, p3);
        let c1 = match e1.store.borrow_component_mut(entity_id) {
            Some(c) => c,
            None => vstd::pervasive::unreached(),
        };
        let c2 = match e2.store.borrow_component_mut(entity_id) {
            Some(c) => c,
            None => vstd::pervasive::unreached(),
        };
        let c3 = match e3.store.borrow_component_mut(entity_id) {
            Some(c) => c,
            None => vstd::pervasive::unreached(),
        };
        Some((c1, c2, c3))
    }

    /// Mutable access to one entity's components of four pairwise-distinct
    /// types at once.
    pub fn borrow_component_quad_mut(
        &mut self,
        key1: u64,
        key2: u64,
        key3: u64,
        key4: u64,
        entity_id: usize,
    ) -> (r: Option<(&mut C, &mut C, &mut C, &mut C)>)
        requires
            old(self).wf(),
        ensures
            r is Some <==> old(self).registered(key1) && old(self).registered(key2) && old(
                self,
            ).registered(key3) && old(self).registered(key4) && key1 != key2 && key1 != key3
                && key1 != key4 && key2 != key3 && key2 != key4 && key3 != key4 && old(
                self,
            ).store_of(key1).spec_has(entity_id) && old(self).store_of(key2).spec_has(entity_id)
                && old(self).store_of(key3).spec_has(entity_id) && old(self).store_of(
                key4,
            ).spec_has(entity_id),
            r is None ==> *final(self) == *old(self),
            r is Some ==> {
                &&& *r.unwrap().0 == old(self).store_of(key1).spec_get(entity_id).unwrap()
                &&& *r.unwrap().1 == old(self).store_of(key2).spec_get(entity_id).unwrap()
                &&& *r.unwrap().2 == old(self).store_of(key3).spec_get(entity_id).unwrap()
                &&& *r.unwrap().3 == old(self).store_of(key4).spec_get(entity_id).unwrap()
                &&& final(self).wf()
                &&& final(self).keys() == old(self).keys()
                &&& final(self).spec_frame() == old(self).spec_frame()
                &&& Self::same_registry(*old(self), *final(self))
                &&& final(self).store_of(key1).ids() == old(self).store_of(key1).ids()
                &&& final(self).store_of(key1).lookup() == old(self).store_of(key1).lookup()
                &&& final(self).store_of(key1).vals() == old(self).store_of(key1).vals().update(
                    old(self).store_of(key1).spec_index_of(entity_id),
                    *final(r.unwrap().0),
                )
                &&& final(self).store_of(key2).ids() == old(self).store_of(key2).ids()
                &&& final(self).store_of(key2).lookup() == old(self).store_of(key2).lookup()
                &&& final(self).store_of(key2).vals() == old(self).store_of(key2).vals().update(
                    old(self).store_of(key2).spec_index_of(entity_id),
                    *final(r.unwrap().1),
                )
                &&& final(self).store_of(key3).ids() == old(self).store_of(key3).ids()
                &&& final(self).store_of(key3).lookup() == old(self).store_of(key3).lookup()
                &&& final(self).store_of(key3).vals() == old(self).store_of(key3).vals().update(
                    old(self).store_of(key3).spec_index_of(entity_id),
                    *final(r.unwrap().2),
                )
                &&& final(self).store_of(key4).ids() == old(self).store_of(key4).ids()
                &&& final(self).store_of(key4).lookup() == old(self).store_of(key4).lookup()
                &&& final(self).store_of(key4).vals() == old(self).store_of(key4).vals().update(
                    old(self).store_of(key4).spec_index_of(entity_id),
                    *final(r.unwrap().3),
                )
                &&& forall|k: u64|
                    old(self).registered(k) ==> #[trigger] final(self).stamp_of(k) == old(self).stamp_of(k)
                &&& forall|k: u64|
                    k != key1 && k != key2 && k != key3 && k != key4 && old(self).registered(k)
                        ==> #[trigger] final(self).store_of(k) == old(self).store_of(k)
            },
    {
        if key1 == key2 || key1 == key3 || key1 == key4 || key2 == key3 || key2 == key4 || key3
            == key4 {
            return None;
        }
        let p1 = match self.find_store(key1) {
            Some(p) => p,
            None => {
                return None;
            },
        };
        let p2 = match self.find_store(key2) {
            Some(p) => p,
            None => {
                return None;
            },
        };
        let p3 = match self.find_store(key3) {
            Some(p) => p,
            None => {
                return None;
            },
        };
        let p4 = match self.find_store(key4) {
            Some(p) => p,
            None => {
                return None;
            },
        };
        if !self.stores[p1].store.component_exists(entity_id) {
            return None;
        }
        if !self.stores[p2].store.component_exists(entity_id) {
            return None;
        }
        if !self.stores[p3].store.component_exists(entity_id) {
            return None;
        }
        if !self.stores[p4].store.component_exists(entity_id) {
            return None;
        }
        proof {
            self.lemma_all_pos();
        }
        let (e1, e2, e3, e4) = four_slice_muts(self.stores.as_mut_slice(), p1, p2, p3, p4);
        let c1 = match e1.store.borrow_component_mut(entity_id) {
            Some(c) => c,
            None => vstd::pervasive::unreached(),
        };
        let c2 = match e2.store.borrow_component_mut(entity_id) {
            Some(c) => c,
            None => vstd::pervasive::unreached(),
        };
        let c3 = match e3.store.borrow_component_mut(entity_id) {
            Some(c) => c,
            None => vstd::pervasive::unreached(),
        };
        let c4 = match e4.store.borrow_component_mut(entity_id) {
            Some(c) => c,
            None => vstd::pervasive::unreached(),
        };
        Some((c1, c2, c3, c4))
    }
}

impl<C> Default for EntityManager<C> {
    fn default() -> (r: Self)
        ensures
            r.wf(),
            r.keys() == Seq::<u64>::empty(),
            r.spec_frame() == 0,
            r.registry().slots() == Seq::<bool>::empty(),
            r.registry().free() == Seq::<usize>::empty(),
    {
        EntityManager {
            entities: Entities::new(),
            type_keys: Vec::new(),
            stores: Vec::new(),
            frame: 0,
        }
    }
}

} // verus!
