//! Falling-object system: moves every falling object downward by its fall
//! rate, spins it, and deletes it once it sinks below the arena floor by
//! more than its radius — the off-screen cleanup rule. Deletion propagates
//! through the lifecycle logs to the synchronizer on its next tick.

use vstd::prelude::*;

use crate::context::Context;
use crate::falldown::{FallingObject, Transform};
use crate::util::sat_i64;

verus! {

/// `rate * dt / 1000`: a per-second rate scaled to `dt` milliseconds.
pub open spec fn scaled_rate(rate: int, dt: int) -> int {
    rate * dt / 1000
}

/// Where one tick moves a falling object: down by its scaled fall rate,
/// rotated by its scaled spin rate, both saturating at the coordinate
/// range.
pub open spec fn fall_step(obj: FallingObject, t: Transform, dt: u32) -> Transform {
    let dy = scaled_rate(obj.fall_rate as int, dt as int);
    let smag = scaled_rate(
        if obj.spin_rate >= 0 {
            obj.spin_rate as int
        } else {
            -(obj.spin_rate as int)
        },
        dt as int,
    );
    let ds = if obj.spin_rate >= 0 {
        smag
    } else {
        -smag
    };
    Transform { x: t.x, y: sat_i64(t.y as int - dy), z: t.z, rot: sat_i64(t.rot as int + ds) }
}

/// The off-screen cleanup rule: gone once it is deeper below the floor than
/// its own radius.
pub open spec fn below_floor(obj: FallingObject, moved: Transform) -> bool {
    (moved.y as int) < -(obj.radius as int)
}

/// Whether the object in slot `id` ends this tick below the floor.
pub open spec fn below_out(ctx: Context, id: u32, dt: u32) -> bool {
    &&& ctx.falling_objects.occupied(id)
    &&& ctx.transforms.occupied(id)
    &&& below_floor(
        ctx.falling_objects.value_at(id)->Some_0,
        fall_step(
            ctx.falling_objects.value_at(id)->Some_0,
            ctx.transforms.value_at(id)->Some_0,
            dt,
        ),
    )
}

/// Whether this tick deletes the entity in slot `id`.
pub open spec fn falls_out(ctx: Context, id: u32, dt: u32) -> bool {
    below_out(ctx, id, dt) && ctx.entities.index_alive(id)
}

proof fn lemma_rate_bounds(rate: int, dt: int)
    requires
        0 <= rate < 0x1_0000_0000,
        0 <= dt < 0x1_0000_0000,
    ensures
        0 <= rate * dt < 0x1_0000_0000_0000_0000,
        0 <= rate * dt / 1000 < 0x1_0000_0000_0000_0000,
{
    assert(0 <= rate * dt < 0x1_0000_0000_0000_0000) by (nonlinear_arith)
        requires
            0 <= rate < 0x1_0000_0000,
            0 <= dt < 0x1_0000_0000,
    ;
}

/// Computes `rate * dt / 1000` for a nonnegative 32-bit rate.
fn scaled_rate_exec(rate: u32, dt: u32) -> (r: u64)
    ensures
        r as int == scaled_rate(rate as int, dt as int),
{
    proof {
        lemma_rate_bounds(rate as int, dt as int);
    }
    (rate as u64) * (dt as u64) / 1000
}

pub struct FallingObjectSystem;

impl FallingObjectSystem {
    /// One tick of falling motion: every placed falling object moves and
    /// spins per `fall_step`; any that ends up below the floor by more than
    /// its radius is deleted, all its component slots vacated through their
    /// tracked storages. Nothing else moves; no slot of any other entity
    /// changes; the spatial index and the contact log are untouched.
    pub fn run(&self, ctx: &mut Context, dt: u32)
        requires
            old(ctx).wf(),
        ensures
            final(ctx).wf(),
            final(ctx).collision_world == old(ctx).collision_world,
            final(ctx).contacts == old(ctx).contacts,
            final(ctx).entities.slot_count() == old(ctx).entities.slot_count(),
            forall|i: u32|
                final(ctx).entities.index_alive(i) == (old(ctx).entities.index_alive(i)
                    && !falls_out(*old(ctx), i, dt)),
            forall|i: u32|
                #[trigger] falls_out(*old(ctx), i, dt) ==> {
                    &&& final(ctx).transforms.value_at(i) is None
                    &&& final(ctx).falling_objects.value_at(i) is None
                    &&& final(ctx).colliders.value_at(i) is None
                    &&& final(ctx).affiliations.value_at(i) is None
                    &&& final(ctx).players.value_at(i) is None
                    &&& final(ctx).followers.value_at(i) is None
                    &&& final(ctx).spawners.value_at(i) is None
                },
            forall|i: u32|
                old(ctx).falling_objects.occupied(i) && old(ctx).transforms.occupied(i)
                    && !below_out(*old(ctx), i, dt) ==> final(ctx).transforms.value_at(i)
                    == Some(
                    fall_step(
                        old(ctx).falling_objects.value_at(i)->Some_0,
                        old(ctx).transforms.value_at(i)->Some_0,
                        dt,
                    ),
                ),
            forall|i: u32|
                !(old(ctx).falling_objects.occupied(i) && old(ctx).transforms.occupied(i))
                    ==> final(ctx).transforms.value_at(i) == old(ctx).transforms.value_at(i),
            forall|i: u32|
                below_out(*old(ctx), i, dt) && !old(ctx).entities.index_alive(i)
                    ==> final(ctx).transforms.value_at(i) == old(ctx).transforms.value_at(i),
            forall|i: u32|
                !falls_out(*old(ctx), i, dt) ==> {
                    &&& final(ctx).falling_objects.value_at(i) == old(
                        ctx,
                    ).falling_objects.value_at(i)
                    &&& final(ctx).colliders.value_at(i) == old(ctx).colliders.value_at(i)
                    &&& final(ctx).affiliations.value_at(i) == old(
                        ctx,
                    ).affiliations.value_at(i)
                    &&& final(ctx).players.value_at(i) == old(ctx).players.value_at(i)
                    &&& final(ctx).followers.value_at(i) == old(ctx).followers.value_at(i)
                    &&& final(ctx).spawners.value_at(i) == old(ctx).spawners.value_at(i)
                },
            final(ctx).colliders.log().len() >= old(ctx).colliders.log().len(),
            final(ctx).colliders.log().take(old(ctx).colliders.log().len() as int) == old(
                ctx,
            ).colliders.log(),
            final(ctx).colliders.channel.cursors@ == old(ctx).colliders.channel.cursors@,
    {
        let ids = ctx.falling_objects.ids();
        let n = ids.len();
        let mut k: usize = 0;
        while k < n
            invariant
                k <= n,
                n == ids@.len(),
                ctx.wf(),
                forall|q: int|
                    0 <= q < ids@.len() ==> old(ctx).falling_objects.occupied(
                        #[trigger] ids@[q],
                    ),
                forall|id: u32| old(ctx).falling_objects.occupied(id) ==> ids@.contains(id),
                forall|q1: int, q2: int| 0 <= q1 < q2 < ids@.len() ==> ids@[q1] != ids@[q2],
                ctx.collision_world == old(ctx).collision_world,
                ctx.contacts == old(ctx).contacts,
                ctx.entities.slot_count() == old(ctx).entities.slot_count(),
                forall|i: u32|
                    ctx.entities.index_alive(i) == (old(ctx).entities.index_alive(i) && !(
                    ids@.take(k as int).contains(i) && falls_out(*old(ctx), i, dt))),
                forall|i: u32|
                    ids@.take(k as int).contains(i) && #[trigger] falls_out(*old(ctx), i, dt)
                        ==> {
                        &&& ctx.transforms.value_at(i) is None
                        &&& ctx.falling_objects.value_at(i) is None
                        &&& ctx.colliders.value_at(i) is None
                        &&& ctx.affiliations.value_at(i) is None
                        &&& ctx.players.value_at(i) is None
                        &&& ctx.followers.value_at(i) is None
                        &&& ctx.spawners.value_at(i) is None
                    },
                forall|i: u32|
                    ids@.take(k as int).contains(i) && old(ctx).transforms.occupied(i)
                        && !below_out(*old(ctx), i, dt) ==> ctx.transforms.value_at(i) == Some(
                        fall_step(
                            old(ctx).falling_objects.value_at(i)->Some_0,
                            old(ctx).transforms.value_at(i)->Some_0,
                            dt,
                        ),
                    ),
                forall|i: u32|
                    !(ids@.take(k as int).contains(i) && old(ctx).transforms.occupied(i))
                        ==> ctx.transforms.value_at(i) == old(ctx).transforms.value_at(i),
                forall|i: u32|
                    ids@.take(k as int).contains(i) && below_out(*old(ctx), i, dt) && !old(
                        ctx,
                    ).entities.index_alive(i) ==> ctx.transforms.value_at(i) == old(
                        ctx,
                    ).transforms.value_at(i),
                forall|i: u32|
                    !(ids@.take(k as int).contains(i) && falls_out(*old(ctx), i, dt)) ==> {
                        &&& ctx.falling_objects.value_at(i) == old(
                            ctx,
                        ).falling_objects.value_at(i)
                        &&& ctx.colliders.value_at(i) == old(ctx).colliders.value_at(i)
                        &&& ctx.affiliations.value_at(i) == old(ctx).affiliations.value_at(i)
                        &&& ctx.players.value_at(i) == old(ctx).players.value_at(i)
                        &&& ctx.followers.value_at(i) == old(ctx).followers.value_at(i)
                        &&& ctx.spawners.value_at(i) == old(ctx).spawners.value_at(i)
                    },
                ctx.colliders.log().len() >= old(ctx).colliders.log().len(),
                ctx.colliders.log().take(old(ctx).colliders.log().len() as int) == old(
                    ctx,
                ).colliders.log(),
                ctx.colliders.channel.cursors@ == old(ctx).colliders.channel.cursors@,
            decreases n - k,
        {
            let id = ids[k];
            proof {
                assert(ids@.contains(id)) by {
                    assert(ids@[k as int] == id);
                }
                if ids@.take(k as int).contains(id) {
                    let q = choose|q: int|
                        0 <= q < k as int && #[trigger] ids@.take(k as int)[q] == id;
                    assert(ids@[q] == ids@[k as int]);
                    assert(false);
                }
                assert(ids@.take(k + 1).drop_last() =~= ids@.take(k as int));
                assert(ids@.take(k + 1).last() == id);
                assert forall|i: u32|
                    #[trigger] ids@.take(k + 1).contains(i) implies (i == id || ids@.take(
                    k as int,
                ).contains(i)) by {
                    let q = choose|q: int|
                        0 <= q < ids@.take(k + 1).len() && #[trigger] ids@.take(k + 1)[q] == i;
                    if q < k as int {
                        assert(ids@.take(k as int)[q] == i);
                    }
                }
                assert forall|i: u32|
                    (i == id || ids@.take(k as int).contains(i)) implies #[trigger] ids@.take(
                    k + 1,
                ).contains(i) by {
                    if i == id {
                        assert(ids@.take(k + 1)[k as int] == i);
                    } else {
                        let q = choose|q: int|
                            0 <= q < ids@.take(k as int).len() && #[trigger] ids@.take(
                                k as int,
                            )[q] == i;
                        assert(ids@.take(k + 1)[q] == i);
                    }
                }
            }
            let obj = match ctx.falling_objects.get(id) {
                Ok(o) => *o,
                Err(_) => {
                    proof {
                        assert(false);
                    }
                    FallingObject { fall_rate: 0, spin_rate: 0, radius: 0 }
                },
            };
            match ctx.transforms.get(id) {
                Err(_) => {},
                Ok(tref) => {
                    let t = *tref;
                    let dy = scaled_rate_exec(obj.fall_rate, dt);
                    let smag = scaled_rate_exec(
                        if obj.spin_rate >= 0 {
                            obj.spin_rate as u32
                        } else {
                            if obj.spin_rate == i32::MIN {
                                2_147_483_648u32
                            } else {
                                (-obj.spin_rate) as u32
                            }
                        },
                        dt,
                    );
                    let y2 = {
                        let v = (t.y as i128) - (dy as i128);
                        if v > i64::MAX as i128 {
                            i64::MAX
                        } else if v < i64::MIN as i128 {
                            i64::MIN
                        } else {
                            v as i64
                        }
                    };
                    let rot2 = {
                        let sd: i128 = if obj.spin_rate >= 0 {
                            smag as i128
                        } else {
                            -(smag as i128)
                        };
                        let v = (t.rot as i128) + sd;
                        if v > i64::MAX as i128 {
                            i64::MAX
                        } else if v < i64::MIN as i128 {
                            i64::MIN
                        } else {
                            v as i64
                        }
                    };
                    let moved = Transform { x: t.x, y: y2, z: t.z, rot: rot2 };
                    proof {
                        assert(moved == fall_step(obj, t, dt));
                    }
                    if y2 < -(obj.radius as i64) {
                        let e = ctx.entities.entity_at(id);
                        let _ = ctx.delete_entity(e);
                        proof {
                            assert(ctx.colliders.log().take(
                                old(ctx).colliders.log().len() as int,
                            ) =~= old(ctx).colliders.log());
                        }
                    } else {
                        let _ = ctx.transforms.replace(id, moved);
                    }
                },
            }
            k = k + 1;
        }
        proof {
            assert(ids@.take(n as int) =~= ids@);
        }
    }
}

} // verus!
