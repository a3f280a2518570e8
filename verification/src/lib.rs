//! Entity lifecycle synchronization for a falling-object arcade game.
//!
//! The heart of the crate is a tracked component storage that publishes
//! insert / modify / remove lifecycle events into a broadcast log with
//! independent per-reader cursors, a synchronizer that keeps an external
//! spatial index in one-to-one correspondence with the live collider
//! components, and a contact classifier that applies the catch / miss rule.

pub mod bitset;
pub mod channel;
pub mod context;
pub mod falldown;
pub mod falling_object;
pub mod object_collection;
pub mod player_movement;
pub mod registry;
pub mod rng;
pub mod spawner;
pub mod storage;
pub mod sync_collision_world;
pub mod util;
pub mod world;

use vstd::prelude::*;

verus! {

/// Opaque identifier for a bundle of components: a stable slot index plus a
/// reuse generation, so that a stale handle to a recycled slot compares
/// unequal to the slot's new occupant.
#[derive(PartialEq, Eq, Structural, Clone, Copy, Debug, Hash)]
pub struct Entity {
    pub index: u32,
    pub generation: u64,
}

/// Protocol violations (accessing a component slot that holds no value,
/// reading through a cursor that was never registered, deleting an entity
/// that is already gone, addressing a spatial-index entry that does not
/// exist) fail fast, and exhaustion of the spatial index's handle space is
/// fatal for the tick; none of these is ever silently ignored.
#[derive(PartialEq, Eq, Structural, Clone, Copy, Debug)]
pub enum ProtocolError {
    NoSuchComponent,
    NoSuchReader,
    InvalidEntity,
    NoSuchHandle,
    CapacityExhausted,
}

} // verus!
