//! The entity registry: a dense sequence of slots plus a free list of
//! recyclable indices.  `create` reuses the lowest free index if one exists,
//! otherwise it appends a fresh alive slot; `remove` marks a slot dead and
//! pushes its index onto the free list.
//!
//! Well-formedness ties the two together: the free list holds exactly the
//! dead slot indices, each at most once, so an index is never handed out
//! twice without going through the free list in between.

use crate::entity::Entity;
use vstd::prelude::*;

verus! {

pub struct Entities {
    entities: Vec<Entity>,
    available_indexes: Vec<usize>,
}

impl Entities {
    /// Liveness flags of the slots, in slot order.
    pub closed spec fn slots(self) -> Seq<bool> {
        self.entities@.map(|i: int, e: Entity| e.spec_is_alive())
    }

    /// The recyclable indices, in the order they were freed.
    pub closed spec fn free(self) -> Seq<usize> {
        self.available_indexes@
    }

    pub open spec fn spec_exists(self, entity_id: usize) -> bool {
        entity_id < self.slots().len() && self.slots()[entity_id as int]
    }

    pub open spec fn wf(self) -> bool {
        &&& forall|i: int|
            0 <= i < self.free().len() ==> (#[trigger] self.free()[i]) < self.slots().len()
        &&& forall|i: int, j: int|
            0 <= i < j < self.free().len() ==> self.free()[i] != self.free()[j]
        &&& forall|id: usize|
            id < self.slots().len() ==> ((#[trigger] self.slots()[id as int]) <==> !self.free().contains(
                id))
    }

    /// Exact effect of `create` returning `id`: the id was dead (or out of
    /// range) before and is alive afterwards, no other slot changes, and the
    /// id is the lowest free index when one was available, else the fresh
    /// index just past the old slots.
    pub open spec fn create_effect(pre: Entities, post: Entities, id: usize) -> bool {
        &&& !pre.spec_exists(id)
        &&& post.spec_exists(id)
        &&& forall|other: usize|
            other != id ==> post.spec_exists(other) == pre.spec_exists(other)
        &&& if pre.free().len() > 0 {
            &&& (forall|i: int| 0 <= i < pre.free().len() ==> id <= #[trigger] pre.free()[i])
            &&& post.slots() == pre.slots().update(id as int, true)
            &&& exists|p: int|
                0 <= p < pre.free().len() && pre.free()[p] == id && post.free() == pre.free().remove(
                    p,
                )
        } else {
            &&& id == pre.slots().len()
            &&& post.slots() == pre.slots().push(true)
            &&& post.free() == pre.free()
        }
    }

    /// Exact effect of `remove(id)`: an alive slot goes dead and its index is
    /// appended to the free list; a dead or out-of-range id is a no-op.
    pub open spec fn remove_effect(pre: Entities, post: Entities, id: usize) -> bool {
        if pre.spec_exists(id) {
            &&& post.slots() == pre.slots().update(id as int, false)
            &&& post.free() == pre.free().push(id)
        } else {
            &&& post.slots() == pre.slots()
            &&& post.free() == pre.free()
        }
    }

    pub fn new() -> (r: Entities)
        ensures
            r.wf(),
            r.slots() == Seq::<bool>::empty(),
            r.free() == Seq::<usize>::empty(),
    {
        Entities { entities: Vec::new(), available_indexes: Vec::new() }
    }

    pub fn entity_exists(&self, entity_id: usize) -> (r: bool)
        ensures
            r == self.spec_exists(entity_id),
    {
        entity_id < self.entities.len() && self.entities[entity_id].is_alive()
    }

    pub fn create(&mut self) -> (r: usize)
        requires
            old(self).wf(),
        ensures
            final(self).wf(),
            Entities::create_effect(*old(self), *final(self), r),
    {
        if self.available_indexes.len() > 0 {
            let mut pos: usize = 0;
            let mut i: usize = 1;
            while i < self.available_indexes.len()
                invariant
                    0 < self.available_indexes.len(),
                    pos < i <= self.available_indexes.len(),
                    forall|j: int|
                        0 <= j < i ==> self.available_indexes@[pos as int]
                            <= #[trigger] self.available_indexes@[j],
                decreases self.available_indexes.len() - i,
            {
                if self.available_indexes[i] < self.available_indexes[pos] {
                    pos = i;
                }
                i = i + 1;
            }
            let ghost pre = *self;
            let index = self.available_indexes.remove(pos);
            proof {
                assert(index == pre.free()[pos as int]);
                assert((index as int) < pre.slots().len());
            }
            let slot = &mut self.entities[index];
            slot.enable();
            proof {
                Self::lemma_distinct_remove(pre.free(), pos as int);
                assert(self.slots() =~= pre.slots().update(index as int, true));
                assert forall|id: usize| id < self.slots().len() implies ((#[trigger] self.slots()[id as int])
                    <==> !self.free().contains(id)) by {
                    if id == index {
                        assert(!self.free().contains(id));
                    } else {
                        assert(self.free().contains(id) <==> pre.free().contains(id)) by {
                            if self.free().contains(id) {
                                let w = choose|w: int|
                                    0 <= w < self.free().len() && self.free()[w] == id;
                                if w < pos {
                                    assert(pre.free()[w] == id);
                                } else {
                                    assert(pre.free()[w + 1] == id);
                                }
                            }
                            if pre.free().contains(id) {
                                let w = choose|w: int|
                                    0 <= w < pre.free().len() && pre.free()[w] == id;
                                if w < pos {
                                    assert(self.free()[w] == id);
                                } else if w > pos {
                                    assert(self.free()[w - 1] == id);
                                }
                            }
                        }
                    }
                }
            }
            return index;
        }
        let fresh = self.entities.len();
        self.entities.push(Entity::default());
        proof {
            assert(self.slots() =~= old(self).slots().push(true));
        }
        fresh
    }

    pub fn remove(&mut self, entity_id: usize)
        requires
            old(self).wf(),
        ensures
            final(self).wf(),
            Entities::remove_effect(*old(self), *final(self), entity_id),
    {
        if !self.entity_exists(entity_id) {
            return;
        }
        let slot = &mut self.entities[entity_id];
        slot.disable();
        self.available_indexes.push(entity_id);
        proof {
            assert(self.slots() =~= old(self).slots().update(entity_id as int, false));
            assert forall|id: usize| id < self.slots().len() implies ((#[trigger] self.slots()[id as int])
                <==> !self.free().contains(id)) by {
                if id == entity_id {
                    assert(self.free()[self.free().len() - 1] == entity_id);
                } else {
                    assert(self.free().contains(id) <==> old(self).free().contains(id)) by {
                        if self.free().contains(id) {
                            let w = choose|w: int|
                                0 <= w < self.free().len() && self.free()[w] == id;
                            assert(old(self).free()[w] == id);
                        }
                        if old(self).free().contains(id) {
                            let w = choose|w: int|
                                0 <= w < old(self).free().len() && old(self).free()[w] == id;
                            assert(self.free()[w] == id);
                        }
                    }
                }
            }
        }
    }

    /// Removing one position from a duplicate-free sequence keeps it
    /// duplicate-free, and the removed element no longer occurs.
    proof fn lemma_distinct_remove(s: Seq<usize>, p: int)
        requires
            0 <= p < s.len(),
            forall|i: int, j: int| 0 <= i < j < s.len() ==> s[i] != s[j],
        ensures
            forall|i: int, j: int|
                0 <= i < j < s.remove(p).len() ==> s.remove(p)[i] != s.remove(p)[j],
            !s.remove(p).contains(s[p]),
    {
        let t = s.remove(p);
        assert forall|i: int, j: int| 0 <= i < j < t.len() implies t[i] != t[j] by {
            let si: int = if i < p { i } else { i + 1 };
            let sj: int = if j < p { j } else { j + 1 };
            assert(t[i] == s[si]);
            assert(t[j] == s[sj]);
        }
        if t.contains(s[p]) {
            let w = choose|w: int| 0 <= w < t.len() && t[w] == s[p];
            let sw: int = if w < p { w } else { w + 1 };
            assert(t[w] == s[sw]);
        }
    }
}

} // verus!
