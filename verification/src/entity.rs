//! One slot of the entity registry: a recyclable identity with a liveness
//! flag.  No component data lives here; all of it is kept in per-type stores
//! keyed by the slot's index.

use vstd::prelude::*;

verus! {

pub struct Entity {
    alive: bool,
}

impl Entity {
    pub closed spec fn spec_is_alive(self) -> bool {
        self.alive
    }

    pub fn is_alive(&self) -> (r: bool)
        ensures
            r == self.spec_is_alive(),
    {
        self.alive
    }

    pub fn enable(&mut self)
        ensures
            final(self).spec_is_alive(),
    {
        self.alive = true;
    }

    pub fn disable(&mut self)
        ensures
            !final(self).spec_is_alive(),
    {
        self.alive = false;
    }
}

impl Default for Entity {
    /// A fresh slot is alive: the registry hands its index out immediately.
    fn default() -> (r: Self)
        ensures
            r.spec_is_alive(),
    {
        Entity { alive: true }
    }
}

} // verus!
