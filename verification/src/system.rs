//! The contract between the engine core and externally supplied behavior:
//! once per tick a system receives the manager and its own query cache,
//! asks the cache for the entities matching its component interest, and
//! reads or mutates their components through the manager.  A system must
//! not retain manager references across ticks.

use crate::accessor::EntityIdAccessor;
use crate::entity_manager::EntityManager;
use vstd::prelude::*;

verus! {

pub trait System<C> {
    fn update(&mut self, manager: &mut EntityManager<C>, accessor: &mut EntityIdAccessor)
        requires
            old(manager).wf(),
            old(accessor).wf(),
    ;
}

} // verus!
