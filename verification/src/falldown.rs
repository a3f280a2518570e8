//! Game domain data: colors, affiliations, collider descriptors, integer
//! world transforms (milli-unit coordinates), the spawner cadence state and
//! the catch / miss classification rule.

use vstd::prelude::*;

use crate::Entity;
use crate::storage::ToEvent;

verus! {

/// Arena extents in milli-units.
pub const ARENA_WIDTH: i64 = 300_000;

pub const ARENA_HEIGHT: i64 = 300_000;

/// Ball radii in milli-units.
pub const PLAYER_RADIUS: u32 = 15_000;

pub const SPAWNED_OBJECT_RADIUS: u32 = 5_000;

/// Number of values in `ColorType`.
pub const COLOR_COUNT: u32 = 5;

/// The closed set of object colors.
#[derive(PartialEq, Eq, Structural, Clone, Copy, Debug, Hash)]
pub enum ColorType {
    Green,
    Blue,
    Orange,
    Purple,
    Red,
}

impl ColorType {
    /// Maps a draw from `0..COLOR_COUNT` to a color; any out-of-range draw
    /// falls back to red, mirroring the sampling rule the spawner uses.
    pub open spec fn from_index_spec(n: u32) -> ColorType {
        if n == 0 {
            ColorType::Green
        } else if n == 1 {
            ColorType::Blue
        } else if n == 2 {
            ColorType::Orange
        } else if n == 3 {
            ColorType::Purple
        } else {
            ColorType::Red
        }
    }

    pub fn from_index(n: u32) -> (c: ColorType)
        ensures
            c == ColorType::from_index_spec(n),
    {
        match n {
            0 => ColorType::Green,
            1 => ColorType::Blue,
            2 => ColorType::Orange,
            3 => ColorType::Purple,
            _ => ColorType::Red,
        }
    }
}

/// Which side an entity plays on, fixed at creation.
#[derive(PartialEq, Eq, Structural, Clone, Copy, Debug)]
pub enum Affiliation {
    Player(ColorType),
    Enemy(ColorType),
}

/// Broad-phase filter: two entries may touch only when each one's membership
/// intersects the other's whitelist.
#[derive(PartialEq, Eq, Structural, Clone, Copy, Debug)]
pub struct CollisionGroups {
    pub membership: u32,
    pub whitelist: u32,
}

pub open spec fn groups_interact(a: CollisionGroups, b: CollisionGroups) -> bool {
    (a.membership & b.whitelist) != 0 && (b.membership & a.whitelist) != 0
}

/// The player's group: member of group 0, interacts with group 1.
pub fn player_collision_group() -> (g: CollisionGroups)
    ensures
        g == (CollisionGroups { membership: 1u32, whitelist: 2u32 }),
{
    CollisionGroups { membership: 1, whitelist: 2 }
}

/// The falling objects' group: member of group 1, interacts with group 0.
pub fn enemy_collision_group() -> (g: CollisionGroups)
    ensures
        g == (CollisionGroups { membership: 2u32, whitelist: 1u32 }),
{
    CollisionGroups { membership: 2, whitelist: 1 }
}

/// Collision geometry, in milli-units.
#[derive(PartialEq, Eq, Structural, Clone, Copy, Debug)]
pub enum Shape {
    Ball(u32),
}

impl Shape {
    pub open spec fn radius(self) -> u32 {
        match self {
            Shape::Ball(r) => r,
        }
    }
}

/// Whether an index entry takes part in contact generation or only in
/// proximity queries.
#[derive(PartialEq, Eq, Structural, Clone, Copy, Debug)]
pub enum QueryKind {
    Contacts,
    Proximity,
}

/// World-space placement in milli-units, with a rotation in milli-degrees.
#[derive(PartialEq, Eq, Structural, Clone, Copy, Debug)]
pub struct Transform {
    pub x: i64,
    pub y: i64,
    pub z: i64,
    pub rot: i64,
}

impl Transform {
    pub fn at(x: i64, y: i64, z: i64) -> (t: Transform)
        ensures
            t == (Transform { x, y, z, rot: 0i64 }),
    {
        Transform { x, y, z, rot: 0 }
    }
}

/// Collider component: immutable shape, group and query descriptor plus the
/// non-owning back-reference into the spatial index, set by the synchronizer
/// on first sync and carried out through the `Removed` event payload so the
/// index entry can be released after the component is gone.
#[derive(Clone, Copy, Debug)]
pub struct Collider {
    pub shape: Shape,
    pub groups: CollisionGroups,
    pub query_type: QueryKind,
    pub handle: Option<u64>,
}

impl Collider {
    pub fn new(shape: Shape, groups: CollisionGroups, query_type: QueryKind) -> (c: Collider)
        ensures
            c == (Collider { shape, groups, query_type, handle: None }),
    {
        Collider { shape, groups, query_type, handle: None }
    }

    pub fn shape(&self) -> (s: Shape)
        ensures
            s == self.shape,
    {
        self.shape
    }

    pub fn groups(&self) -> (g: CollisionGroups)
        ensures
            g == self.groups,
    {
        self.groups
    }

    pub fn query_type(&self) -> (q: QueryKind)
        ensures
            q == self.query_type,
    {
        self.query_type
    }
}

impl ToEvent<Option<u64>> for Collider {
    open spec fn to_event_spec(&self) -> Option<u64> {
        self.handle
    }

    fn to_event(&self) -> (e: Option<u64>) {
        self.handle
    }
}

/// Falling-object motion parameters: downward speed in milli-units per
/// second, spin in milli-degrees per second, radius in milli-units.
#[derive(PartialEq, Eq, Structural, Clone, Copy, Debug)]
pub struct FallingObject {
    pub fall_rate: u32,
    pub spin_rate: i32,
    pub radius: u32,
}

/// Cursor-following behaviour: how strongly a follower tracks the target on
/// each axis, in per-mille.
#[derive(PartialEq, Eq, Structural, Clone, Copy, Debug)]
pub struct FollowMouse {
    pub x_ratio: u32,
    pub y_ratio: u32,
}

/// Marker component for the collector the player controls. Its cosmetic
/// movement trail lives with the rendering layer, not here.
#[derive(PartialEq, Eq, Structural, Clone, Copy, Debug)]
pub struct Player {}

/// Spawning cadence, in milliseconds, plus the budget of objects left.
#[derive(PartialEq, Eq, Structural, Clone, Copy, Debug)]
pub struct Spawner {
    pub spawn_rate: u32,
    pub spawn_countdown: i64,
    pub remaining: u32,
}

impl Spawner {
    pub open spec fn wf(&self) -> bool {
        0 <= self.spawn_countdown <= self.spawn_rate
    }

    pub fn new(spawn_rate: u32) -> (s: Spawner)
        ensures
            s == (Spawner {
                spawn_rate,
                spawn_countdown: spawn_rate as i64,
                remaining: 100u32,
            }),
            s.wf(),
    {
        Spawner { spawn_rate, spawn_countdown: spawn_rate as i64, remaining: 100 }
    }

    /// Advances the spawn countdown by `time` milliseconds. Returns `true`
    /// exactly when the countdown reached zero and was reset to the full
    /// spawn rate.
    pub fn advance_and_reset(&mut self, time: u32) -> (fired: bool)
        ensures
            old(self).wf() ==> final(self).wf(),
            final(self).spawn_rate == old(self).spawn_rate,
            final(self).remaining == old(self).remaining,
            fired == (old(self).spawn_countdown - time <= 0),
            fired ==> final(self).spawn_countdown == old(self).spawn_rate,
            !fired ==> final(self).spawn_countdown == old(self).spawn_countdown - time,
    {
        let next = (self.spawn_countdown as i128) - (time as i128);
        if next <= 0 {
            self.spawn_countdown = self.spawn_rate as i64;
            true
        } else {
            self.spawn_countdown = next as i64;
            false
        }
    }
}

/// Outcome of classifying one contact pair.
#[derive(PartialEq, Eq, Structural, Clone, Copy, Debug)]
pub enum CollectionEvent {
    CaughtBlock { player: Entity, block: Entity, color: ColorType, is_correct: bool },
    Unknown,
}

/// The catch / miss rule: a player touching an enemy is a catch attempt,
/// correct exactly when the colors match; any other pairing (or a missing
/// affiliation) is an anomaly. The outcome depends only on the two
/// affiliation values and not on the order of the participants.
pub open spec fn classify_spec(
    entity1: Entity,
    affiliation1: Option<Affiliation>,
    entity2: Entity,
    affiliation2: Option<Affiliation>,
) -> CollectionEvent {
    match (affiliation1, affiliation2) {
        (Some(Affiliation::Player(pc)), Some(Affiliation::Enemy(ec))) => {
            CollectionEvent::CaughtBlock {
                player: entity1,
                block: entity2,
                color: ec,
                is_correct: ec == pc,
            }
        },
        (Some(Affiliation::Enemy(ec)), Some(Affiliation::Player(pc))) => {
            CollectionEvent::CaughtBlock {
                player: entity2,
                block: entity1,
                color: ec,
                is_correct: ec == pc,
            }
        },
        _ => CollectionEvent::Unknown,
    }
}

pub fn classify(
    entity1: Entity,
    affiliation1: Option<Affiliation>,
    entity2: Entity,
    affiliation2: Option<Affiliation>,
) -> (out: CollectionEvent)
    ensures
        out == classify_spec(entity1, affiliation1, entity2, affiliation2),
{
    match (affiliation1, affiliation2) {
        (Some(Affiliation::Player(pc)), Some(Affiliation::Enemy(ec))) => {
            CollectionEvent::CaughtBlock {
                player: entity1,
                block: entity2,
                color: ec,
                is_correct: ec == pc,
            }
        },
        (Some(Affiliation::Enemy(ec)), Some(Affiliation::Player(pc))) => {
            CollectionEvent::CaughtBlock {
                player: entity2,
                block: entity1,
                color: ec,
                is_correct: ec == pc,
            }
        },
        _ => CollectionEvent::Unknown,
    }
}

impl From<(Entity, Option<Affiliation>, Entity, Option<Affiliation>)> for CollectionEvent {
    fn from(data: (Entity, Option<Affiliation>, Entity, Option<Affiliation>)) -> (out:
        CollectionEvent)
        ensures
            out == classify_spec(data.0, data.1, data.2, data.3),
    {
        classify(data.0, data.1, data.2, data.3)
    }
}

impl vstd::std_specs::convert::FromSpecImpl<(Entity, Option<Affiliation>, Entity, Option<Affiliation>)> for CollectionEvent {
    open spec fn obeys_from_spec() -> bool {
        true
    }

    open spec fn from_spec(data: (Entity, Option<Affiliation>, Entity, Option<Affiliation>)) -> Self {
        classify_spec(data.0, data.1, data.2, data.3)
    }
}

/// Classification determinism: swapping the two participants of a contact
/// yields the identical outcome.
pub proof fn lemma_classify_symmetric(
    entity1: Entity,
    affiliation1: Option<Affiliation>,
    entity2: Entity,
    affiliation2: Option<Affiliation>,
)
    ensures
        classify_spec(entity1, affiliation1, entity2, affiliation2) == classify_spec(
            entity2,
            affiliation2,
            entity1,
            affiliation1,
        ),
{
}

} // verus!
