//! Entity registry: allocates entity identifiers (slot index plus reuse
//! generation), answers aliveness queries, and recycles freed slots under a
//! bumped generation so stale identifiers never pass for the new occupant.

use vstd::prelude::*;

use crate::{Entity, ProtocolError};

verus! {

/// Largest number of entity slots the registry hands out; keeps slot indices
/// inside the range the synchronizer's scratch bit set accepts.
pub const ENTITY_INDEX_LIMIT: u32 = 16_777_216;

pub struct EntityRegistry {
    pub generations: Vec<u64>,
    pub alive: Vec<bool>,
    pub freed: Vec<u32>,
}

impl EntityRegistry {
    pub open spec fn slot_count(&self) -> int {
        self.generations@.len() as int
    }

    pub open spec fn wf(&self) -> bool {
        &&& self.alive@.len() == self.generations@.len()
        &&& self.slot_count() <= ENTITY_INDEX_LIMIT as int
        &&& forall|k: int|
            0 <= k < self.freed@.len() ==> (#[trigger] self.freed@[k] as int) < self.slot_count()
                && !self.alive@[self.freed@[k] as int]
        &&& forall|k1: int, k2: int|
            0 <= k1 < k2 < self.freed@.len() ==> self.freed@[k1] != self.freed@[k2]
    }

    /// Whether slot `i` currently hosts a live entity.
    pub open spec fn index_alive(&self, i: u32) -> bool {
        (i as int) < self.slot_count() && self.alive@[i as int]
    }

    /// Whether `e` names the current live occupant of its slot.
    pub open spec fn entity_alive(&self, e: Entity) -> bool {
        self.index_alive(e.index) && self.generations@[e.index as int] == e.generation
    }

    /// The identifier currently associated with slot `i` (generation zero
    /// for a slot that was never allocated).
    pub open spec fn entity_at_spec(&self, i: u32) -> Entity {
        Entity {
            index: i,
            generation: if (i as int) < self.slot_count() {
                self.generations@[i as int]
            } else {
                0
            },
        }
    }

    /// A fresh entity can be created: a freed slot waits for reuse or the
    /// slot table has room to grow.
    pub open spec fn can_create(&self) -> bool {
        self.freed@.len() > 0 || self.slot_count() < ENTITY_INDEX_LIMIT as int
    }

    pub fn new() -> (r: Self)
        ensures
            r.wf(),
            r.slot_count() == 0,
            r.freed@.len() == 0,
    {
        EntityRegistry { generations: Vec::new(), alive: Vec::new(), freed: Vec::new() }
    }

    /// Allocates a live entity, reusing the most recently freed slot if one
    /// exists, otherwise opening a fresh slot at generation zero. No other
    /// slot changes.
    pub fn create(&mut self) -> (r: Entity)
        requires
            old(self).wf(),
            old(self).can_create(),
        ensures
            final(self).wf(),
            final(self).entity_alive(r),
            !old(self).index_alive(r.index),
            final(self).generations@.len() >= old(self).generations@.len(),
            (r.index as int) < final(self).slot_count(),
            r.generation == final(self).generations@[r.index as int],
            forall|i: u32|
                i != r.index ==> final(self).index_alive(i) == old(self).index_alive(i),
            forall|i: u32|
                i != r.index ==> final(self).entity_at_spec(i) == old(self).entity_at_spec(i),
            old(self).freed@.len() > 0 ==> {
                &&& r.index == old(self).freed@.last()
                &&& final(self).freed@ == old(self).freed@.drop_last()
                &&& final(self).generations@ == old(self).generations@
            },
            old(self).freed@.len() == 0 ==> {
                &&& r.index as int == old(self).slot_count()
                &&& r.generation == 0
                &&& final(self).freed@ == old(self).freed@
                &&& final(self).generations@ == old(self).generations@.push(0u64)
            },
    {
        match self.freed.pop() {
            Some(i) => {
                let idx = i as usize;
                self.alive[idx] = true;
                let generation = self.generations[idx];
                Entity { index: i, generation }
            },
            None => {
                let i = self.generations.len() as u32;
                self.generations.push(0);
                self.alive.push(true);
                Entity { index: i, generation: 0 }
            },
        }
    }

    /// Deletes a live entity: its slot dies, its generation is bumped (so
    /// the recycled slot gets a distinguishable identifier) and the slot is
    /// queued for reuse. Deleting an entity that is already gone fails fast
    /// with `InvalidEntity` and changes nothing.
    pub fn delete(&mut self, e: Entity) -> (out: Result<(), ProtocolError>)
        requires
            old(self).wf(),
        ensures
            final(self).wf(),
            old(self).entity_alive(e) ==> {
                &&& out is Ok
                &&& !final(self).index_alive(e.index)
                &&& final(self).freed@ == old(self).freed@.push(e.index)
                &&& final(self).generations@ == old(self).generations@.update(
                    e.index as int,
                    bump_generation(e.generation),
                )
                &&& forall|i: u32|
                    i != e.index ==> final(self).index_alive(i) == old(self).index_alive(i)
            },
            !old(self).entity_alive(e) ==> {
                &&& out == Result::<(), ProtocolError>::Err(ProtocolError::InvalidEntity)
                &&& *final(self) == *old(self)
            },
            final(self).slot_count() == old(self).slot_count(),
    {
        let idx = e.index as usize;
        if idx >= self.generations.len() {
            return Err(ProtocolError::InvalidEntity);
        }
        if !self.alive[idx] || self.generations[idx] != e.generation {
            return Err(ProtocolError::InvalidEntity);
        }
        self.alive[idx] = false;
        let g = self.generations[idx];
        self.generations[idx] = if g == u64::MAX {
            g
        } else {
            g + 1
        };
        self.freed.push(e.index);
        Ok(())
    }

    /// Whether a fresh entity can be created right now.
    pub fn has_capacity(&self) -> (b: bool)
        ensures
            b == self.can_create(),
    {
        self.freed.len() > 0 || self.generations.len() < ENTITY_INDEX_LIMIT as usize
    }

    /// The identifier currently associated with a slot.
    pub fn entity_at(&self, i: u32) -> (r: Entity)
        ensures
            r == self.entity_at_spec(i),
    {
        let idx = i as usize;
        if idx < self.generations.len() {
            Entity { index: i, generation: self.generations[idx] }
        } else {
            Entity { index: i, generation: 0 }
        }
    }

    /// Whether `e` still names a live entity.
    pub fn is_alive(&self, e: Entity) -> (r: bool)
        requires
            self.wf(),
        ensures
            r == self.entity_alive(e),
    {
        let idx = e.index as usize;
        idx < self.generations.len() && self.alive[idx] && self.generations[idx] == e.generation
    }
}

/// Generation following `g` when a slot is recycled; pinned at the top of
/// the range rather than wrapping back to an already-used value.
pub open spec fn bump_generation(g: u64) -> u64 {
    if g == u64::MAX {
        g
    } else {
        (g + 1) as u64
    }
}

} // verus!
