//! The per-type component store: a dense sequence of entity ids, the
//! parallel dense sequence of their component values, and a lookup from
//! entity id to dense position (or an absence marker).
//!
//! The two dense sequences always have the same length and are
//! index-aligned: `ids()[p]` owns `vals()[p]`.  An entity id appears at most
//! once.  Removal swap-removes, moving the last entry into the vacated
//! position, so dense order is not stable under removal, but id-to-value
//! lookup always is.

use vstd::prelude::*;

verus! {

pub struct ComponentManager<C> {
    entity_ids: Vec<usize>,
    components: Vec<C>,
    index_map: Vec<Option<usize>>,
}

impl<C> ComponentManager<C> {
    /// Dense sequence of entity ids holding a component of this type.
    pub closed spec fn ids(self) -> Seq<usize> {
        self.entity_ids@
    }

    /// Dense sequence of component values, aligned with `ids()`.
    pub closed spec fn vals(self) -> Seq<C> {
        self.components@
    }

    /// Lookup from entity id to dense position.
    pub closed spec fn lookup(self) -> Seq<Option<usize>> {
        self.index_map@
    }

    pub open spec fn spec_has(self, entity_id: usize) -> bool {
        (entity_id as int) < self.lookup().len() && self.lookup()[entity_id as int] is Some
    }

    pub open spec fn spec_index_of(self, entity_id: usize) -> int {
        self.lookup()[entity_id as int].unwrap() as int
    }

    pub open spec fn spec_get(self, entity_id: usize) -> Option<C> {
        if self.spec_has(entity_id) {
            Some(self.vals()[self.spec_index_of(entity_id)])
        } else {
            None
        }
    }

    pub open spec fn wf(self) -> bool {
        &&& self.ids().len() == self.vals().len()
        &&& forall|id: usize|
            (id as int) < self.lookup().len() && (#[trigger] self.lookup()[id as int]) is Some
                ==> 0 <= self.spec_index_of(id) < self.ids().len() && self.ids()[self.spec_index_of(
                id,
            )] == id
        &&& forall|p: int|
            0 <= p < self.ids().len() ==> ((#[trigger] self.ids()[p]) as int) < self.lookup().len()
                && self.lookup()[self.ids()[p] as int] == Some(p as usize)
    }

    /// Exact effect of `add(id, v)`: the id now maps to `v`; a present id is
    /// overwritten in place, an absent one is appended to both dense
    /// sequences.  No other id's component changes.
    pub open spec fn add_effect(pre: Self, post: Self, entity_id: usize, v: C) -> bool {
        &&& post.spec_get(entity_id) == Some(v)
        &&& forall|o: usize| o != entity_id ==> post.spec_get(o) == pre.spec_get(o)
        &&& if pre.spec_has(entity_id) {
            &&& post.ids() == pre.ids()
            &&& post.vals() == pre.vals().update(pre.spec_index_of(entity_id), v)
        } else {
            &&& post.ids() == pre.ids().push(entity_id)
            &&& post.vals() == pre.vals().push(v)
        }
    }

    /// Exact effect of `remove(id)`: a present entry is swap-removed from
    /// both dense sequences (the last entry moves into its position); an
    /// absent id is a no-op.  No other id's component changes.
    pub open spec fn remove_effect(pre: Self, post: Self, entity_id: usize) -> bool {
        if pre.spec_has(entity_id) {
            &&& post.ids() == pre.ids().update(
                pre.spec_index_of(entity_id),
                pre.ids().last(),
            ).drop_last()
            &&& post.vals() == pre.vals().update(
                pre.spec_index_of(entity_id),
                pre.vals().last(),
            ).drop_last()
            &&& post.spec_get(entity_id) is None
            &&& forall|o: usize| o != entity_id ==> post.spec_get(o) == pre.spec_get(o)
        } else {
            &&& post.ids() == pre.ids()
            &&& post.vals() == pre.vals()
            &&& post.lookup() == pre.lookup()
        }
    }

    /// The dense id sequence never repeats an id, and (being a vector's
    /// contents) fits machine bounds.
    pub proof fn lemma_ids_no_duplicates(self)
        requires
            self.wf(),
        ensures
            self.ids().no_duplicates(),
            self.ids().len() <= usize::MAX,
    {
        broadcast use vstd::std_specs::vec::axiom_spec_len;

        assert(self.ids().len() == vstd::std_specs::vec::spec_vec_len(&self.entity_ids));
        assert forall|i: int, j: int|
            0 <= i < self.ids().len() && 0 <= j < self.ids().len() && i != j implies self.ids()[i]
            != self.ids()[j] by {
            assert(self.lookup()[self.ids()[i] as int] == Some(i as usize));
            assert(self.lookup()[self.ids()[j] as int] == Some(j as usize));
        }
    }

    pub fn new() -> (r: Self)
        ensures
            r.wf(),
            r.ids() == Seq::<usize>::empty(),
            r.vals() == Seq::<C>::empty(),
            r.lookup() == Seq::<Option<usize>>::empty(),
    {
        ComponentManager { entity_ids: Vec::new(), components: Vec::new(), index_map: Vec::new() }
    }

    pub fn component_exists(&self, entity_id: usize) -> (r: bool)
        ensures
            r == self.spec_has(entity_id),
    {
        entity_id < self.index_map.len() && self.index_map[entity_id].is_some()
    }

    pub fn add(&mut self, entity_id: usize, component: C)
        requires
            old(self).wf(),
        ensures
            final(self).wf(),
            Self::add_effect(*old(self), *final(self), entity_id, component),
    {
        if self.component_exists(entity_id) {
            let p = self.index_map[entity_id].unwrap();
            self.components[p] = component;
            proof {
                assert forall|o: usize| o != entity_id implies self.spec_get(o) == old(self).spec_get(
                    o,
                ) by {
                    if old(self).spec_has(o) {
                        assert(old(self).ids()[old(self).spec_index_of(o)] == o);
                        assert(old(self).ids()[old(self).spec_index_of(entity_id)] == entity_id);
                    }
                }
            }
        } else {
            let n = self.entity_ids.len();
            while self.index_map.len() <= entity_id
                invariant
                    self.entity_ids == old(self).entity_ids,
                    self.components == old(self).components,
                    old(self).index_map@.len() <= self.index_map@.len(),
                    forall|i: int|
                        0 <= i < old(self).index_map@.len() ==> self.index_map@[i] == old(
                            self,
                        ).index_map@[i],
                    forall|i: int|
                        old(self).index_map@.len() <= i < self.index_map@.len()
                            ==> (#[trigger] self.index_map@[i]) is None,
                decreases entity_id + 1 - self.index_map@.len(),
            {
                self.index_map.push(None);
            }
            self.index_map[entity_id] = Some(n);
            self.entity_ids.push(entity_id);
            self.components.push(component);
            proof {
                let oldlen = old(self).lookup().len();
                assert forall|id: usize|
                    (id as int) < self.lookup().len() && (#[trigger] self.lookup()[id as int]) is Some
                        implies 0 <= self.spec_index_of(id) < self.ids().len()
                        && self.ids()[self.spec_index_of(id)] == id by {
                    if id != entity_id {
                        if (id as int) < oldlen {
                            assert(self.lookup()[id as int] == old(self).lookup()[id as int]);
                            let q = old(self).spec_index_of(id);
                            assert(old(self).ids()[q] == id);
                            assert(old(self).ids().push(entity_id)[q] == old(self).ids()[q]);
                            assert(self.ids()[q] == id);
                        } else {
                            assert(self.lookup()[id as int] is None);
                        }
                    }
                }
                assert forall|o: usize| o != entity_id implies self.spec_get(o) == old(self).spec_get(
                    o,
                ) by {
                    if (o as int) < oldlen {
                        assert(self.lookup()[o as int] == old(self).lookup()[o as int]);
                        if old(self).spec_has(o) {
                            let q = old(self).spec_index_of(o);
                            assert(0 <= q < old(self).ids().len());
                            assert(old(self).vals().push(component)[q] == old(self).vals()[q]);
                            assert(self.vals()[q] == old(self).vals()[q]);
                        }
                    } else if (o as int) < self.lookup().len() {
                        assert(self.lookup()[o as int] is None);
                        assert(!self.spec_has(o));
                        assert(!old(self).spec_has(o));
                    } else {
                        assert(!self.spec_has(o));
                        assert(!old(self).spec_has(o));
                    }
                }
            }
        }
    }

    pub fn remove(&mut self, entity_id: usize)
        requires
            old(self).wf(),
        ensures
            final(self).wf(),
            Self::remove_effect(*old(self), *final(self), entity_id),
    {
        if !self.component_exists(entity_id) {
            return;
        }
        let ghost pre = *self;
        let p = self.index_map[entity_id].unwrap();
        let _removed_id = self.entity_ids.swap_remove(p);
        let _removed_component = self.components.swap_remove(p);
        self.index_map[entity_id] = None;
        if p < self.entity_ids.len() {
            let moved = self.entity_ids[p];
            proof {
                assert(moved == pre.ids().last());
                assert(pre.ids()[pre.spec_index_of(moved)] == moved);
                assert(pre.spec_index_of(moved) == pre.ids().len() - 1);
                assert(moved != entity_id);
            }
            self.index_map[moved] = Some(p);
        }
        proof {
            let pi = p as int;
            let last = pre.ids().len() - 1;
            assert forall|id: usize|
                (id as int) < self.lookup().len() && (#[trigger] self.lookup()[id as int]) is Some
                    implies 0 <= self.spec_index_of(id) < self.ids().len() && self.ids()[
                self.spec_index_of(id)] == id by {
                if pi < last && id == pre.ids().last() {
                } else {
                    assert(id != entity_id);
                    assert(self.lookup()[id as int] == pre.lookup()[id as int]);
                    let q = pre.spec_index_of(id);
                    assert(pre.ids()[q] == id);
                    assert(q != pi);
                    if q == last {
                        assert(pre.ids()[q] == pre.ids().last());
                        assert(pi < last);
                    }
                    assert(q < last);
                    assert(self.ids()[q] == pre.ids()[q]);
                }
            }
            assert forall|q: int| 0 <= q < self.ids().len() implies ((#[trigger] self.ids()[q]) as int)
                < self.lookup().len() && self.lookup()[self.ids()[q] as int] == Some(q as usize) by {
                if q == pi {
                    assert(self.ids()[q] == pre.ids().last());
                } else {
                    assert(self.ids()[q] == pre.ids()[q]);
                    assert(pre.lookup()[pre.ids()[q] as int] == Some(q as usize));
                    assert(pre.ids()[q] != entity_id);
                    if pi < last {
                        assert(pre.ids()[q] != pre.ids().last());
                    }
                }
            }
            assert forall|o: usize| o != entity_id implies self.spec_get(o) == pre.spec_get(o) by {
                if pre.spec_has(o) {
                    let q = pre.spec_index_of(o);
                    assert(pre.ids()[q] == o);
                    assert(q != pi);
                    if q == last {
                        assert(pi < last);
                        assert(self.lookup()[o as int] == Some(p));
                        assert(self.vals()[pi] == pre.vals()[last]);
                    } else {
                        assert(self.lookup()[o as int] == pre.lookup()[o as int]);
                        assert(self.vals()[q] == pre.vals()[q]);
                    }
                } else {
                    assert(!self.spec_has(o));
                }
            }
        }
    }

    pub fn borrow_component(&self, entity_id: usize) -> (r: Option<&C>)
        requires
            self.wf(),
        ensures
            r is Some == self.spec_has(entity_id),
            r is Some ==> self.spec_get(entity_id) == Some(*r.unwrap()),
    {
        if entity_id < self.index_map.len() {
            match self.index_map[entity_id] {
                Some(p) => Some(&self.components[p]),
                None => None,
            }
        } else {
            None
        }
    }

    pub fn borrow_component_mut(&mut self, entity_id: usize) -> (r: Option<&mut C>)
        requires
            old(self).wf(),
        ensures
            r is Some == old(self).spec_has(entity_id),
            r is None ==> *final(self) == *old(self),
            r is Some ==> {
                &&& *r.unwrap() == old(self).spec_get(entity_id).unwrap()
                &&& final(self).ids() == old(self).ids()
                &&& final(self).lookup() == old(self).lookup()
                &&& final(self).vals() == old(self).vals().update(
                    old(self).spec_index_of(entity_id),
                    *final(r.unwrap()),
                )
                &&& final(self).wf()
            },
    {
        if entity_id < self.index_map.len() {
            match self.index_map[entity_id] {
                Some(p) => Some(&mut self.components[p]),
                None => None,
            }
        } else {
            None
        }
    }

    pub fn borrow_entity_ids(&self) -> (r: &Vec<usize>)
        ensures
            r@ == self.ids(),
    {
        &self.entity_ids
    }

    pub fn borrow_components(&self) -> (r: &Vec<C>)
        ensures
            r@ == self.vals(),
    {
        &self.components
    }

    /// Hands out the dense value sequence for bulk mutation.  Well-formedness
    /// survives exactly when the caller leaves the length unchanged.
    pub fn borrow_components_mut(&mut self) -> (r: &mut Vec<C>)
        requires
            old(self).wf(),
        ensures
            (*r)@ == old(self).vals(),
            final(self).ids() == old(self).ids(),
            final(self).lookup() == old(self).lookup(),
            final(self).vals() == (*final(r))@,
            (*final(r))@.len() == old(self).vals().len() ==> final(self).wf(),
    {
        &mut self.components
    }
}

} // verus!
