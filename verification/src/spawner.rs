//! Spawner system: advances each spawner's countdown by the elapsed time
//! and, whenever it fires with budget remaining and a free entity slot,
//! creates one falling enemy object with randomized position, speed, spin
//! and color. Only the ranges of the random draws are promised.

use vstd::prelude::*;

use crate::Entity;
use crate::context::Context;
use crate::falldown::{
    Affiliation, Collider, ColorType, FallingObject, QueryKind, Shape, Spawner, Transform,
    ARENA_HEIGHT, ARENA_WIDTH, COLOR_COUNT, SPAWNED_OBJECT_RADIUS,
};
use crate::rng::random_below;
use crate::storage::storage_inserted;
use crate::util::plus_or_minus;

verus! {

/// The smallest and largest randomized fall rates and spin magnitudes, in
/// milli-units per second and milli-degrees per second.
pub const MIN_FALL_RATE: u32 = 60_000;

pub const MAX_FALL_RATE: u32 = 120_000;

pub const MIN_SPIN_RATE: i32 = 45_000;

pub const MAX_SPIN_RATE: i32 = 270_000;

/// A fresh falling enemy object was created in entity `r` with the given
/// draw: placed just above the arena at column `x`, tagged `Enemy(color)`,
/// shaped as the standard spawned ball, and set falling at `rate` with spin
/// `spin`. The spawner storage is not spoken of here.
pub open spec fn enemy_spawned(
    pre: Context,
    post: Context,
    r: Entity,
    color: ColorType,
    x: i64,
    rate: u32,
    spin: i32,
) -> bool {
    &&& post.entities.entity_alive(r)
    &&& !pre.entities.index_alive(r.index)
    &&& forall|i: u32|
        i != r.index ==> post.entities.index_alive(i) == pre.entities.index_alive(i)
    &&& storage_inserted(
        pre.transforms,
        post.transforms,
        r.index,
        Transform {
            x,
            y: (ARENA_HEIGHT + SPAWNED_OBJECT_RADIUS as i64) as i64,
            z: 0i64,
            rot: 0i64,
        },
    )
    &&& storage_inserted(
        pre.colliders,
        post.colliders,
        r.index,
        Collider {
            shape: Shape::Ball(SPAWNED_OBJECT_RADIUS),
            groups: crate::falldown::CollisionGroups { membership: 2u32, whitelist: 1u32 },
            query_type: QueryKind::Contacts,
            handle: None,
        },
    )
    &&& storage_inserted(
        pre.affiliations,
        post.affiliations,
        r.index,
        Affiliation::Enemy(color),
    )
    &&& storage_inserted(
        pre.falling_objects,
        post.falling_objects,
        r.index,
        FallingObject { fall_rate: rate, spin_rate: spin, radius: SPAWNED_OBJECT_RADIUS },
    )
    &&& post.players == pre.players
    &&& post.followers == pre.followers
    &&& post.collision_world == pre.collision_world
    &&& post.contacts == pre.contacts
}

/// The exact effect of one spawner slot's tick: the countdown advances (and
/// resets when it fires); when it fires with budget remaining and a free
/// entity slot, the budget drops by one and one enemy is spawned from some
/// draw within the documented ranges; otherwise nothing else changes.
pub open spec fn spawn_rel(pre: Context, id: u32, dt: u32, post: Context) -> bool {
    if !pre.spawners.occupied(id) {
        post == pre
    } else {
        let sp = pre.spawners.value_at(id)->Some_0;
        let fired = sp.spawn_countdown - dt <= 0;
        let countdown2 = if fired {
            sp.spawn_rate as i64
        } else {
            (sp.spawn_countdown - dt) as i64
        };
        if fired && sp.remaining > 0 && pre.entities.can_create() {
            exists|r: Entity, color: ColorType, x: i64, rate: u32, spin: i32|
                {
                    &&& #[trigger] enemy_spawned(pre, post, r, color, x, rate, spin)
                    &&& 0 <= x < ARENA_WIDTH
                    &&& MIN_FALL_RATE <= rate <= MAX_FALL_RATE
                    &&& (MIN_SPIN_RATE <= spin <= MAX_SPIN_RATE || -MAX_SPIN_RATE <= spin
                        <= -MIN_SPIN_RATE)
                    &&& storage_inserted(
                        pre.spawners,
                        post.spawners,
                        id,
                        Spawner {
                            spawn_rate: sp.spawn_rate,
                            spawn_countdown: countdown2,
                            remaining: (sp.remaining - 1) as u32,
                        },
                    )
                }
        } else {
            &&& storage_inserted(
                pre.spawners,
                post.spawners,
                id,
                Spawner {
                    spawn_rate: sp.spawn_rate,
                    spawn_countdown: countdown2,
                    remaining: sp.remaining,
                },
            )
            &&& post.entities == pre.entities
            &&& post.transforms == pre.transforms
            &&& post.colliders == pre.colliders
            &&& post.affiliations == pre.affiliations
            &&& post.falling_objects == pre.falling_objects
            &&& post.players == pre.players
            &&& post.followers == pre.followers
            &&& post.collision_world == pre.collision_world
            &&& post.contacts == pre.contacts
        }
    }
}

/// `spawn_rel` chained over the spawner slots processed in order.
pub open spec fn spawn_chain(pre: Context, ids: Seq<u32>, dt: u32, post: Context) -> bool
    decreases ids.len(),
{
    if ids.len() == 0 {
        post == pre
    } else {
        exists|mid: Context|
            #![trigger spawn_rel(pre, ids[0], dt, mid)]
            spawn_rel(pre, ids[0], dt, mid) && spawn_chain(mid, ids.skip(1), dt, post)
    }
}

proof fn lemma_spawn_chain_snoc(
    pre: Context,
    ids: Seq<u32>,
    dt: u32,
    mid: Context,
    id: u32,
    post: Context,
)
    requires
        spawn_chain(pre, ids, dt, mid),
        spawn_rel(mid, id, dt, post),
    ensures
        spawn_chain(pre, ids.push(id), dt, post),
    decreases ids.len(),
{
    if ids.len() == 0 {
        assert(ids.push(id)[0] == id);
        assert(ids.push(id).skip(1).len() == 0);
        assert(spawn_rel(pre, ids.push(id)[0], dt, post));
        assert(spawn_chain(post, ids.push(id).skip(1), dt, post));
    } else {
        let mid1 = choose|mid1: Context|
            #![trigger spawn_rel(pre, ids[0], dt, mid1)]
            spawn_rel(pre, ids[0], dt, mid1) && spawn_chain(mid1, ids.skip(1), dt, mid);
        lemma_spawn_chain_snoc(mid1, ids.skip(1), dt, mid, id, post);
        assert(ids.push(id).skip(1) =~= ids.skip(1).push(id));
        assert(ids.push(id)[0] == ids[0]);
        assert(spawn_rel(pre, ids.push(id)[0], dt, mid1));
    }
}

pub struct SpawnerSystem;

impl SpawnerSystem {
    /// One spawner tick over every spawner slot, in slot order, exactly as
    /// `spawn_chain` describes.
    pub fn run(&self, ctx: &mut Context, dt: u32)
        requires
            old(ctx).wf(),
        ensures
            final(ctx).wf(),
            exists|ids: Seq<u32>|
                {
                    &&& #[trigger] spawn_chain(*old(ctx), ids, dt, *final(ctx))
                    &&& forall|q: int|
                        0 <= q < ids.len() ==> old(ctx).spawners.occupied(#[trigger] ids[q])
                    &&& forall|id: u32| old(ctx).spawners.occupied(id) ==> ids.contains(id)
                    &&& forall|q1: int, q2: int|
                        0 <= q1 < q2 < ids.len() ==> ids[q1] != ids[q2]
                },
    {
        let ids = ctx.spawners.ids();
        let ghost ids0 = ids@;
        let ghost pre_spawners = ctx.spawners;
        let n = ids.len();
        let mut k: usize = 0;
        while k < n
            invariant
                k <= n,
                n == ids@.len(),
                ids@ == ids0,
                ctx.wf(),
                forall|q: int|
                    0 <= q < ids0.len() ==> old(ctx).spawners.occupied(#[trigger] ids0[q]),
                forall|id: u32| old(ctx).spawners.occupied(id) ==> ids0.contains(id),
                forall|q1: int, q2: int| 0 <= q1 < q2 < ids0.len() ==> ids0[q1] != ids0[q2],
                spawn_chain(*old(ctx), ids0.take(k as int), dt, *ctx),
                forall|q: int| k <= q < ids0.len() ==> ctx.spawners.occupied(#[trigger] ids0[q])
                    && ctx.spawners.value_at(ids0[q]) == old(ctx).spawners.value_at(ids0[q]),
            decreases n - k,
        {
            let ghost mid = *ctx;
            let id = ids[k];
            let sp = match ctx.spawners.get(id) {
                Ok(s) => *s,
                Err(_) => {
                    proof {
                        assert(false);
                    }
                    Spawner { spawn_rate: 0, spawn_countdown: 0, remaining: 0 }
                },
            };
            let mut sp2 = sp;
            let fired = sp2.advance_and_reset(dt);
            proof {
                assert(ctx.spawners.wf());
            }
            if fired && sp.remaining > 0 && ctx.entities.has_capacity() {
                let x = random_below(300_000) as i64;
                let rate = MIN_FALL_RATE + random_below(60_001);
                let spin_mag = 45_000i64 + random_below(225_001) as i64;
                let spin64 = plus_or_minus(spin_mag);
                let spin = spin64 as i32;
                let color = ColorType::from_index(random_below(COLOR_COUNT));
                let updated = Spawner {
                    spawn_rate: sp2.spawn_rate,
                    spawn_countdown: sp2.spawn_countdown,
                    remaining: sp.remaining - 1,
                };
                let _ = ctx.spawners.replace(id, updated);
                let ghost mid2 = *ctx;
                let r = ctx.spawn_enemy(color, x, rate, spin);
                proof {
                    assert(enemy_spawned(mid, *ctx, r, color, x, rate, spin)) by {
                        assert(mid2.spawners == ctx.spawners);
                        assert(mid.entities == mid2.entities);
                    }
                    assert(storage_inserted(
                        mid.spawners,
                        ctx.spawners,
                        id,
                        Spawner {
                            spawn_rate: sp.spawn_rate,
                            spawn_countdown: sp2.spawn_countdown,
                            remaining: (sp.remaining - 1) as u32,
                        },
                    ));
                    assert(spawn_rel(mid, id, dt, *ctx));
                }
            } else {
                let updated = Spawner {
                    spawn_rate: sp2.spawn_rate,
                    spawn_countdown: sp2.spawn_countdown,
                    remaining: sp.remaining,
                };
                let _ = ctx.spawners.replace(id, updated);
                proof {
                    assert(spawn_rel(mid, id, dt, *ctx));
                }
            }
            proof {
                lemma_spawn_chain_snoc(*old(ctx), ids0.take(k as int), dt, mid, id, *ctx);
                assert(ids0.take(k + 1) =~= ids0.take(k as int).push(id));
                assert forall|q: int|
                    k + 1 <= q < ids0.len() implies ctx.spawners.occupied(#[trigger] ids0[q])
                    && ctx.spawners.value_at(ids0[q]) == old(ctx).spawners.value_at(
                    ids0[q],
                ) by {
                    if q > k as int {
                        assert(ids0[q] != ids0[k as int]);
                    }
                }
            }
            k = k + 1;
        }
        proof {
            assert(ids0.take(n as int) =~= ids0);
            assert(spawn_chain(*old(ctx), ids0, dt, *ctx));
        }
    }
}

} // verus!
