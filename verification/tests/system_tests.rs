use falldown::context::Context;
use falldown::falldown::{ColorType, FollowMouse, Transform, ARENA_WIDTH};
use falldown::falling_object::FallingObjectSystem;
use falldown::player_movement::{FollowMouseSystem, PlayerMovementSystem};
use falldown::spawner::{SpawnerSystem, MAX_FALL_RATE, MAX_SPIN_RATE, MIN_FALL_RATE, MIN_SPIN_RATE};
use falldown::sync_collision_world::SyncCollisionWorld;

#[test]
fn falling_objects_move_down_and_leave_below_the_floor() {
    let mut ctx = Context::new();
    let mut sync = SyncCollisionWorld::new();
    sync.setup(&mut ctx);
    let e = ctx.spawn_enemy(ColorType::Red, 10_000, 120_000, 90_000);
    sync.run(&mut ctx).unwrap();
    let falling = FallingObjectSystem;
    // one second at 120 units/s: down by 120_000 milli-units
    falling.run(&mut ctx, 1_000);
    let t = *ctx.transforms.get(e.index).unwrap();
    assert_eq!(t.y, 305_000 - 120_000);
    assert_eq!(t.rot, 90_000);
    // long enough to sink below the floor by more than its radius
    falling.run(&mut ctx, 2_000);
    assert!(!ctx.entities.is_alive(e));
    // the deletion propagates to the index on the next synchronizer tick
    sync.run(&mut ctx).unwrap();
    assert_eq!(ctx.collision_world.entries.len(), 0);
    assert_eq!(sync.anomalies, 0);
}

#[test]
fn player_snaps_to_the_pointer() {
    let mut ctx = Context::new();
    let e = ctx.spawn_player(ColorType::Red, 150_000, 45_000);
    let movement = PlayerMovementSystem;
    movement.run(&mut ctx, Some((42_000, 77_000)));
    let t = *ctx.transforms.get(e.index).unwrap();
    assert_eq!((t.x, t.y), (42_000, 77_000));
    // without a pointer nothing moves
    movement.run(&mut ctx, None);
    let t2 = *ctx.transforms.get(e.index).unwrap();
    assert_eq!((t2.x, t2.y), (42_000, 77_000));
}

#[test]
fn followers_close_a_fraction_of_the_distance() {
    let mut ctx = Context::new();
    let e = ctx.entities.create();
    ctx.transforms.insert(e.index, Transform::at(0, 0, 0));
    ctx.followers.insert(e.index, FollowMouse { x_ratio: 500, y_ratio: 0 });
    let follow = FollowMouseSystem;
    follow.run(&mut ctx, Some((10_000, 8_000)));
    let t = *ctx.transforms.get(e.index).unwrap();
    // halfway on x, not at all on y
    assert_eq!((t.x, t.y), (5_000, 0));
}

#[test]
fn spawner_fires_on_schedule_and_draws_within_range() {
    let mut ctx = Context::new();
    let sp = ctx.spawn_spawner(1_000);
    let system = SpawnerSystem;
    // not yet due: nothing spawned
    system.run(&mut ctx, 400);
    assert_eq!(ctx.falling_objects.ids().len(), 0);
    // countdown reaches zero: exactly one object spawned
    system.run(&mut ctx, 600);
    let ids = ctx.falling_objects.ids();
    assert_eq!(ids.len(), 1);
    let spawner = *ctx.spawners.get(sp.index).unwrap();
    assert_eq!(spawner.remaining, 99);
    assert_eq!(spawner.spawn_countdown, 1_000);
    let obj = *ctx.falling_objects.get(ids[0]).unwrap();
    assert!(MIN_FALL_RATE <= obj.fall_rate && obj.fall_rate <= MAX_FALL_RATE);
    let spin_mag = obj.spin_rate.abs();
    assert!(MIN_SPIN_RATE <= spin_mag && spin_mag <= MAX_SPIN_RATE);
    let t = *ctx.transforms.get(ids[0]).unwrap();
    assert!(0 <= t.x && t.x < ARENA_WIDTH);
    assert_eq!(t.y, 305_000);
    // the new object carries an enemy affiliation
    assert!(ctx.affiliations.get(ids[0]).is_ok());
}
