//! The simulation context: one explicit object owning the entity registry,
//! every tracked component storage, the spatial index, and the contact event
//! log, threaded through every system call.

use vstd::prelude::*;

use crate::{Entity, ProtocolError};
use crate::channel::EventChannel;
use crate::falldown::{
    Affiliation, Collider, ColorType, FallingObject, FollowMouse, Player, Shape, Spawner,
    Transform, QueryKind, enemy_collision_group, player_collision_group, ARENA_HEIGHT,
    PLAYER_RADIUS, SPAWNED_OBJECT_RADIUS,
};
use crate::registry::{EntityRegistry, bump_generation};
use crate::storage::{RemovalFlaggedStorage, storage_inserted, storage_removed};
use crate::world::{EntityCollisionWorld, EntityContactEvent};

verus! {

pub struct Context {
    pub entities: EntityRegistry,
    pub transforms: RemovalFlaggedStorage<Transform, Transform>,
    pub colliders: RemovalFlaggedStorage<Collider, Option<u64>>,
    pub affiliations: RemovalFlaggedStorage<Affiliation, Affiliation>,
    pub falling_objects: RemovalFlaggedStorage<FallingObject, FallingObject>,
    pub players: RemovalFlaggedStorage<Player, Player>,
    pub followers: RemovalFlaggedStorage<FollowMouse, FollowMouse>,
    pub spawners: RemovalFlaggedStorage<Spawner, Spawner>,
    pub collision_world: EntityCollisionWorld,
    pub contacts: EventChannel<EntityContactEvent>,
}

impl Context {
    pub open spec fn wf(&self) -> bool {
        &&& self.entities.wf()
        &&& self.transforms.wf()
        &&& self.colliders.wf()
        &&& self.affiliations.wf()
        &&& self.falling_objects.wf()
        &&& self.players.wf()
        &&& self.followers.wf()
        &&& self.spawners.wf()
        &&& self.collision_world.wf()
        &&& self.contacts.wf()
    }

    pub fn new() -> (ctx: Self)
        ensures
            ctx.wf(),
            ctx.entities.slot_count() == 0,
            forall|id: u32| !ctx.transforms.occupied(id),
            forall|id: u32| !ctx.colliders.occupied(id),
            forall|id: u32| !ctx.affiliations.occupied(id),
            forall|id: u32| !ctx.falling_objects.occupied(id),
            forall|id: u32| !ctx.players.occupied(id),
            forall|id: u32| !ctx.followers.occupied(id),
            forall|id: u32| !ctx.spawners.occupied(id),
            ctx.colliders.log().len() == 0,
            ctx.colliders.channel.cursors@.len() == 0,
            ctx.contacts.events@.len() == 0,
            ctx.contacts.cursors@.len() == 0,
            forall|h: u64| !ctx.collision_world.has_handle(h),
            ctx.collision_world.contacts@.len() == 0,
            ctx.collision_world.events@.len() == 0,
    {
        Context {
            entities: EntityRegistry::new(),
            transforms: RemovalFlaggedStorage::new(),
            colliders: RemovalFlaggedStorage::new(),
            affiliations: RemovalFlaggedStorage::new(),
            falling_objects: RemovalFlaggedStorage::new(),
            players: RemovalFlaggedStorage::new(),
            followers: RemovalFlaggedStorage::new(),
            spawners: RemovalFlaggedStorage::new(),
            collision_world: EntityCollisionWorld::new(),
            contacts: EventChannel::new(),
        }
    }

    /// Deletes a live entity and vacates every component slot it occupied;
    /// each tracked storage publishes its removal event, which is how the
    /// spatial-index cleanup lands on the next synchronizer tick. Deleting
    /// an entity that is already gone fails fast with `InvalidEntity` and
    /// changes nothing.
    pub fn delete_entity(&mut self, e: Entity) -> (out: Result<(), ProtocolError>)
        requires
            old(self).wf(),
        ensures
            final(self).wf(),
            old(self).entities.entity_alive(e) ==> {
                &&& out is Ok
                &&& !final(self).entities.index_alive(e.index)
                &&& final(self).entities.slot_count() == old(self).entities.slot_count()
                &&& final(self).entities.freed@ == old(self).entities.freed@.push(e.index)
                &&& final(self).entities.generations@ == old(
                    self,
                ).entities.generations@.update(e.index as int, bump_generation(e.generation))
                &&& forall|i: u32|
                    i != e.index ==> final(self).entities.index_alive(i) == old(
                        self,
                    ).entities.index_alive(i)
                &&& storage_removed(old(self).transforms, final(self).transforms, e.index)
                &&& storage_removed(old(self).colliders, final(self).colliders, e.index)
                &&& storage_removed(old(self).affiliations, final(self).affiliations, e.index)
                &&& storage_removed(
                    old(self).falling_objects,
                    final(self).falling_objects,
                    e.index,
                )
                &&& storage_removed(old(self).players, final(self).players, e.index)
                &&& storage_removed(old(self).followers, final(self).followers, e.index)
                &&& storage_removed(old(self).spawners, final(self).spawners, e.index)
            },
            !old(self).entities.entity_alive(e) ==> {
                &&& out == Result::<(), ProtocolError>::Err(ProtocolError::InvalidEntity)
                &&& *final(self) == *old(self)
            },
            final(self).collision_world == old(self).collision_world,
            final(self).contacts == old(self).contacts,
    {
        match self.entities.delete(e) {
            Err(err) => {
                return Err(err);
            },
            Ok(()) => {},
        }
        let _ = self.transforms.remove(e.index);
        let _ = self.colliders.remove(e.index);
        let _ = self.affiliations.remove(e.index);
        let _ = self.falling_objects.remove(e.index);
        let _ = self.players.remove(e.index);
        let _ = self.followers.remove(e.index);
        let _ = self.spawners.remove(e.index);
        Ok(())
    }

    /// Creates a falling enemy object at `(x, ARENA_HEIGHT + radius)` with
    /// the enemy collision group, its affiliation color, and its motion
    /// parameters, exactly as the spawner builds one.
    pub fn spawn_enemy(&mut self, color: ColorType, x: i64, fall_rate: u32, spin_rate: i32) -> (r:
        Entity)
        requires
            old(self).wf(),
            old(self).entities.can_create(),
        ensures
            final(self).wf(),
            final(self).entities.entity_alive(r),
            !old(self).entities.index_alive(r.index),
            forall|i: u32|
                i != r.index ==> final(self).entities.index_alive(i) == old(
                    self,
                ).entities.index_alive(i),
            storage_inserted(
                old(self).transforms,
                final(self).transforms,
                r.index,
                Transform {
                    x,
                    y: (ARENA_HEIGHT + SPAWNED_OBJECT_RADIUS as i64) as i64,
                    z: 0i64,
                    rot: 0i64,
                },
            ),
            storage_inserted(
                old(self).colliders,
                final(self).colliders,
                r.index,
                Collider {
                    shape: Shape::Ball(SPAWNED_OBJECT_RADIUS),
                    groups: crate::falldown::CollisionGroups { membership: 2u32, whitelist: 1u32 },
                    query_type: QueryKind::Contacts,
                    handle: None,
                },
            ),
            storage_inserted(
                old(self).affiliations,
                final(self).affiliations,
                r.index,
                Affiliation::Enemy(color),
            ),
            storage_inserted(
                old(self).falling_objects,
                final(self).falling_objects,
                r.index,
                FallingObject { fall_rate, spin_rate, radius: SPAWNED_OBJECT_RADIUS },
            ),
            final(self).players == old(self).players,
            final(self).followers == old(self).followers,
            final(self).spawners == old(self).spawners,
            final(self).collision_world == old(self).collision_world,
            final(self).contacts == old(self).contacts,
    {
        let r = self.entities.create();
        let y = ARENA_HEIGHT + SPAWNED_OBJECT_RADIUS as i64;
        self.transforms.insert(r.index, Transform::at(x, y, 0));
        self.colliders.insert(
            r.index,
            Collider::new(
                Shape::Ball(SPAWNED_OBJECT_RADIUS),
                enemy_collision_group(),
                QueryKind::Contacts,
            ),
        );
        self.affiliations.insert(r.index, Affiliation::Enemy(color));
        self.falling_objects.insert(
            r.index,
            FallingObject { fall_rate, spin_rate, radius: SPAWNED_OBJECT_RADIUS },
        );
        r
    }

    /// Creates the player's collector at `(x, y)`: marker, affiliation
    /// color, cursor-following behaviour and the player collision group.
    pub fn spawn_player(&mut self, color: ColorType, x: i64, y: i64) -> (r: Entity)
        requires
            old(self).wf(),
            old(self).entities.can_create(),
        ensures
            final(self).wf(),
            final(self).entities.entity_alive(r),
            !old(self).entities.index_alive(r.index),
            forall|i: u32|
                i != r.index ==> final(self).entities.index_alive(i) == old(
                    self,
                ).entities.index_alive(i),
            storage_inserted(
                old(self).transforms,
                final(self).transforms,
                r.index,
                Transform { x, y, z: 0i64, rot: 0i64 },
            ),
            storage_inserted(
                old(self).colliders,
                final(self).colliders,
                r.index,
                Collider {
                    shape: Shape::Ball(PLAYER_RADIUS),
                    groups: crate::falldown::CollisionGroups { membership: 1u32, whitelist: 2u32 },
                    query_type: QueryKind::Contacts,
                    handle: None,
                },
            ),
            storage_inserted(
                old(self).affiliations,
                final(self).affiliations,
                r.index,
                Affiliation::Player(color),
            ),
            storage_inserted(old(self).players, final(self).players, r.index, Player {}),
            storage_inserted(
                old(self).followers,
                final(self).followers,
                r.index,
                FollowMouse { x_ratio: 900u32, y_ratio: 0u32 },
            ),
            final(self).falling_objects == old(self).falling_objects,
            final(self).spawners == old(self).spawners,
            final(self).collision_world == old(self).collision_world,
            final(self).contacts == old(self).contacts,
    {
        let r = self.entities.create();
        self.transforms.insert(r.index, Transform::at(x, y, 0));
        self.colliders.insert(
            r.index,
            Collider::new(
                Shape::Ball(PLAYER_RADIUS),
                player_collision_group(),
                QueryKind::Contacts,
            ),
        );
        self.affiliations.insert(r.index, Affiliation::Player(color));
        self.players.insert(r.index, Player {});
        self.followers.insert(r.index, FollowMouse { x_ratio: 900, y_ratio: 0 });
        r
    }

    /// Creates the entity carrying the spawner cadence state.
    pub fn spawn_spawner(&mut self, spawn_rate: u32) -> (r: Entity)
        requires
            old(self).wf(),
            old(self).entities.can_create(),
        ensures
            final(self).wf(),
            final(self).entities.entity_alive(r),
            !old(self).entities.index_alive(r.index),
            storage_inserted(
                old(self).spawners,
                final(self).spawners,
                r.index,
                Spawner { spawn_rate, spawn_countdown: spawn_rate as i64, remaining: 100u32 },
            ),
            final(self).transforms == old(self).transforms,
            final(self).colliders == old(self).colliders,
            final(self).affiliations == old(self).affiliations,
            final(self).falling_objects == old(self).falling_objects,
            final(self).players == old(self).players,
            final(self).followers == old(self).followers,
            final(self).collision_world == old(self).collision_world,
            final(self).contacts == old(self).contacts,
    {
        let r = self.entities.create();
        self.spawners.insert(r.index, Spawner::new(spawn_rate));
        r
    }

    /// Registers a reader on the contact event log.
    pub fn register_contact_reader(&mut self) -> (r: crate::channel::ReaderId)
        requires
            old(self).wf(),
        ensures
            final(self).wf(),
            final(self).contacts.events@ == old(self).contacts.events@,
            final(self).contacts.cursors@ == old(self).contacts.cursors@.push(
                old(self).contacts.events@.len() as usize,
            ),
            r.id == old(self).contacts.cursors@.len(),
            final(self).contacts.registered(r),
            final(self).contacts.cursor_of(r) == old(self).contacts.events@.len(),
            final(self).entities == old(self).entities,
            final(self).transforms == old(self).transforms,
            final(self).colliders == old(self).colliders,
            final(self).affiliations == old(self).affiliations,
            final(self).falling_objects == old(self).falling_objects,
            final(self).players == old(self).players,
            final(self).followers == old(self).followers,
            final(self).spawners == old(self).spawners,
            final(self).collision_world == old(self).collision_world,
    {
        self.contacts.register_reader()
    }
}

} // verus!
