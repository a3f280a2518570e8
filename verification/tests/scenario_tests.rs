use falldown::context::Context;
use falldown::falldown::{Affiliation, ColorType};
use falldown::object_collection::ObjectCollection;
use falldown::sync_collision_world::SyncCollisionWorld;
use falldown::world::ContactEvent;

/// Builds a context with both systems registered, before any entity exists.
fn setup() -> (Context, SyncCollisionWorld, ObjectCollection) {
    let mut ctx = Context::new();
    let mut sync = SyncCollisionWorld::new();
    sync.setup(&mut ctx);
    let mut collect = ObjectCollection::new();
    collect.setup(&mut ctx);
    (ctx, sync, collect)
}

fn live_handles(ctx: &Context) -> Vec<u64> {
    let mut out = Vec::new();
    for id in ctx.colliders.ids() {
        let c = ctx.colliders.get(id).unwrap();
        if let Some(h) = c.handle {
            out.push(h);
        }
    }
    out
}

/// The bijection check: every collider handle names an index entry owned by
/// that collider's slot, and vice versa.
fn assert_bijection(ctx: &Context) {
    let handles = live_handles(ctx);
    assert_eq!(ctx.colliders.ids().len(), handles.len());
    assert_eq!(ctx.collision_world.entries.len(), handles.len());
    for h in handles {
        let owner = ctx.collision_world.owner_of(h).expect("entry for handle");
        let c = ctx.colliders.get(owner.index).expect("collider for owner");
        assert_eq!(c.handle, Some(h));
    }
}

#[test]
fn matching_catch_deletes_the_enemy_and_restores_the_bijection() {
    let (mut ctx, mut sync, mut collect) = setup();
    // overlapping enemy and player of the same color, created in one tick
    let e1 = ctx.spawn_enemy(ColorType::Red, 150_000, 80_000, 50_000);
    let e2 = ctx.spawn_player(ColorType::Red, 150_000, 305_000);
    // synchronizer tick: both get handles, and a Started contact is reported
    sync.run(&mut ctx).unwrap();
    assert_bijection(&ctx);
    assert_eq!(ctx.contacts.events.len(), 1);
    let (ca, cb, kind) = ctx.contacts.events[0];
    assert!(matches!(kind, ContactEvent::Started(_, _)));
    assert!((ca == e1 && cb == e2) || (ca == e2 && cb == e1));
    // classifier tick: the enemy is deleted, the catch is recorded
    collect.run(&mut ctx);
    assert_eq!(collect.caught, 1);
    assert_eq!(collect.missed, 0);
    assert!(!ctx.entities.is_alive(e1));
    assert!(ctx.entities.is_alive(e2));
    // next synchronizer tick: the enemy's handle leaves the index
    sync.run(&mut ctx).unwrap();
    assert_bijection(&ctx);
    assert_eq!(ctx.collision_world.entries.len(), 1);
    assert_eq!(sync.anomalies, 0);
}

#[test]
fn mismatched_catch_leaves_the_enemy_alive() {
    let (mut ctx, mut sync, mut collect) = setup();
    let e1 = ctx.spawn_enemy(ColorType::Blue, 150_000, 80_000, 50_000);
    let e2 = ctx.spawn_player(ColorType::Red, 150_000, 305_000);
    sync.run(&mut ctx).unwrap();
    assert_eq!(ctx.contacts.events.len(), 1);
    let h1 = ctx.colliders.get(e1.index).unwrap().handle.unwrap();
    collect.run(&mut ctx);
    assert_eq!(collect.caught, 0);
    assert_eq!(collect.missed, 1);
    assert!(ctx.entities.is_alive(e1));
    assert!(ctx.entities.is_alive(e2));
    // the enemy keeps its very handle indefinitely, and the index keeps its
    // entry for it
    for _ in 0..3 {
        sync.run(&mut ctx).unwrap();
        collect.run(&mut ctx);
    }
    assert_bijection(&ctx);
    assert!(ctx.entities.is_alive(e1));
    let c = ctx.colliders.get(e1.index).unwrap();
    assert_eq!(c.handle, Some(h1));
    assert_eq!(ctx.collision_world.owner_of(h1), Some(e1));
    assert_eq!(ctx.collision_world.entries.len(), 2);
}

#[test]
fn removal_before_first_sync_is_a_logged_anomaly_not_a_failure() {
    let (mut ctx, mut sync, _collect) = setup();
    // inserted and removed within the same tick, before the synchronizer ran
    let e1 = ctx.spawn_enemy(ColorType::Green, 10_000, 80_000, 50_000);
    ctx.delete_entity(e1).unwrap();
    sync.run(&mut ctx).unwrap();
    assert_eq!(sync.anomalies, 1);
    // no index removal was attempted and nothing leaked into the index
    assert_eq!(ctx.collision_world.entries.len(), 0);
    assert_bijection(&ctx);
    // the pipeline keeps working afterwards
    let _e2 = ctx.spawn_enemy(ColorType::Red, 20_000, 80_000, 50_000);
    sync.run(&mut ctx).unwrap();
    assert_eq!(sync.anomalies, 1);
    assert_eq!(ctx.collision_world.entries.len(), 1);
    assert_bijection(&ctx);
}

#[test]
fn untagged_contact_is_counted_as_anomaly() {
    let (mut ctx, mut sync, mut collect) = setup();
    let e1 = ctx.spawn_enemy(ColorType::Red, 150_000, 80_000, 50_000);
    // strip the enemy's affiliation so the pair cannot be classified
    ctx.affiliations.remove(e1.index).unwrap();
    let _e2 = ctx.spawn_player(ColorType::Red, 150_000, 305_000);
    sync.run(&mut ctx).unwrap();
    assert_eq!(ctx.contacts.events.len(), 1);
    collect.run(&mut ctx);
    assert_eq!(collect.caught, 0);
    assert_eq!(collect.missed, 0);
    assert_eq!(collect.anomalies, 1);
    assert!(ctx.entities.is_alive(e1));
}

#[test]
fn two_matching_enemies_are_both_caught_in_one_tick() {
    let (mut ctx, mut sync, mut collect) = setup();
    let e1 = ctx.spawn_enemy(ColorType::Red, 150_000, 80_000, 50_000);
    let e2 = ctx.spawn_enemy(ColorType::Red, 152_000, 80_000, 50_000);
    let player = ctx.spawn_player(ColorType::Red, 150_000, 305_000);
    sync.run(&mut ctx).unwrap();
    // both enemies touch the player; enemy-enemy pairs do not interact
    assert_eq!(ctx.contacts.events.len(), 2);
    collect.run(&mut ctx);
    assert_eq!(collect.caught, 2);
    assert!(!ctx.entities.is_alive(e1));
    assert!(!ctx.entities.is_alive(e2));
    assert!(ctx.entities.is_alive(player));
    sync.run(&mut ctx).unwrap();
    assert_eq!(ctx.collision_world.entries.len(), 1);
    assert_bijection(&ctx);
}

#[test]
fn reinsertion_in_the_same_tick_gets_a_fresh_handle() {
    let (mut ctx, mut sync, _collect) = setup();
    let e1 = ctx.spawn_enemy(ColorType::Red, 10_000, 80_000, 50_000);
    sync.run(&mut ctx).unwrap();
    let h1 = ctx.colliders.get(e1.index).unwrap().handle.unwrap();
    // remove and re-create a collider for the same slot within one tick
    ctx.delete_entity(e1).unwrap();
    let e2 = ctx.spawn_enemy(ColorType::Blue, 10_000, 80_000, 50_000);
    assert_eq!(e2.index, e1.index);
    sync.run(&mut ctx).unwrap();
    let h2 = ctx.colliders.get(e2.index).unwrap().handle.unwrap();
    assert_ne!(h1, h2);
    assert_eq!(ctx.collision_world.entries.len(), 1);
    assert_bijection(&ctx);
    assert_eq!(sync.anomalies, 0);
}
