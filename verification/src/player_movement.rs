//! Player-control systems: one that snaps every player-tagged entity to the
//! pointer's arena position, and one that moves cursor-following entities a
//! configured fraction of the way toward it. The mapping from raw input to
//! arena coordinates is the input layer's concern; these systems take the
//! already-mapped position, or nothing when the pointer is absent.

use vstd::prelude::*;

use crate::context::Context;
use crate::falldown::{FollowMouse, Transform};
use crate::storage::DetailedComponentEvent;
use crate::util::sat_add_i64;

verus! {

/// Where a follower ends up: pulled toward the target by its per-mille
/// ratio on each axis, saturating at the coordinate range.
pub open spec fn follow_step(t: Transform, f: FollowMouse, mx: i64, my: i64) -> Transform {
    Transform {
        x: sat_add_i64(t.x, ratio_of(mx - t.x, f.x_ratio as int)),
        y: sat_add_i64(t.y, ratio_of(my - t.y, f.y_ratio as int)),
        z: t.z,
        rot: t.rot,
    }
}

/// `d * ratio / 1000` rounded toward zero, clamped into `i64`.
pub open spec fn ratio_of(d: int, ratio: int) -> i64 {
    let m = (if d >= 0 {
        d
    } else {
        -d
    }) * ratio / 1000;
    let v = if d >= 0 {
        m
    } else {
        -m
    };
    if v > i64::MAX {
        i64::MAX
    } else if v < i64::MIN {
        i64::MIN
    } else {
        v as i64
    }
}

proof fn lemma_scale_bound(m: int, ratio: int)
    requires
        0 <= m < 0x2_0000_0000_0000_0000,
        0 <= ratio < 0x1_0000_0000,
    ensures
        0 <= m * ratio < 0x2_0000_0000_0000_0000 * 0x1_0000_0000,
{
    assert(0 <= m * ratio < 0x2_0000_0000_0000_0000 * 0x1_0000_0000) by (nonlinear_arith)
        requires
            0 <= m < 0x2_0000_0000_0000_0000,
            0 <= ratio < 0x1_0000_0000,
    ;
}

fn ratio_of_exec(d: i64, target: i64, ratio: u32) -> (r: i64)
    ensures
        r == ratio_of(target as int - d as int, ratio as int),
{
    let diff = (target as i128) - (d as i128);
    let mag = if diff >= 0 {
        diff
    } else {
        -diff
    };
    proof {
        lemma_scale_bound(mag as int, ratio as int);
    }
    let scaled = mag * (ratio as i128) / 1000;
    let v = if diff >= 0 {
        scaled
    } else {
        -scaled
    };
    if v > i64::MAX as i128 {
        i64::MAX
    } else if v < i64::MIN as i128 {
        i64::MIN
    } else {
        v as i64
    }
}

/// Snaps every player-tagged entity's transform to the pointer position.
pub struct PlayerMovementSystem;

impl PlayerMovementSystem {
    /// With a pointer position, every entity that is both player-tagged and
    /// placed moves to that position (keeping depth and rotation); with no
    /// pointer nothing moves. Only the transform storage changes, and its
    /// log gains nothing but `Modified` flags.
    pub fn run(&self, ctx: &mut Context, mouse: Option<(i64, i64)>)
        requires
            old(ctx).wf(),
        ensures
            final(ctx).wf(),
            final(ctx).entities == old(ctx).entities,
            final(ctx).colliders == old(ctx).colliders,
            final(ctx).affiliations == old(ctx).affiliations,
            final(ctx).falling_objects == old(ctx).falling_objects,
            final(ctx).players == old(ctx).players,
            final(ctx).followers == old(ctx).followers,
            final(ctx).spawners == old(ctx).spawners,
            final(ctx).collision_world == old(ctx).collision_world,
            final(ctx).contacts == old(ctx).contacts,
            mouse is None ==> final(ctx).transforms == old(ctx).transforms,
            mouse matches Some((mx, my)) ==> {
                &&& forall|id: u32|
                    old(ctx).players.occupied(id) && old(ctx).transforms.occupied(id)
                        ==> final(ctx).transforms.value_at(id) == Some(
                        Transform {
                            x: mx,
                            y: my,
                            z: old(ctx).transforms.value_at(id)->Some_0.z,
                            rot: old(ctx).transforms.value_at(id)->Some_0.rot,
                        },
                    )
                &&& forall|id: u32|
                    !(old(ctx).players.occupied(id) && old(ctx).transforms.occupied(id))
                        ==> final(ctx).transforms.value_at(id) == old(
                        ctx,
                    ).transforms.value_at(id)
                &&& final(ctx).transforms.log().len() >= old(ctx).transforms.log().len()
                &&& final(ctx).transforms.log().take(old(ctx).transforms.log().len() as int)
                    == old(ctx).transforms.log()
                &&& forall|j: int|
                    old(ctx).transforms.log().len() <= j < final(ctx).transforms.log().len()
                        ==> (#[trigger] final(ctx).transforms.log()[j]) is Modified
                &&& final(ctx).transforms.channel.cursors@ == old(
                    ctx,
                ).transforms.channel.cursors@
            },
    {
        let (mx, my) = match mouse {
            Some(p) => p,
            None => {
                return ;
            },
        };
        let ids = ctx.players.ids();
        let n = ids.len();
        let mut k: usize = 0;
        while k < n
            invariant
                k <= n,
                n == ids@.len(),
                ctx.wf(),
                forall|q: int| 0 <= q < ids@.len() ==> old(ctx).players.occupied(
                    #[trigger] ids@[q],
                ),
                forall|id: u32| old(ctx).players.occupied(id) ==> ids@.contains(id),
                forall|q1: int, q2: int| 0 <= q1 < q2 < ids@.len() ==> ids@[q1] != ids@[q2],
                ctx.entities == old(ctx).entities,
                ctx.colliders == old(ctx).colliders,
                ctx.affiliations == old(ctx).affiliations,
                ctx.falling_objects == old(ctx).falling_objects,
                ctx.players == old(ctx).players,
                ctx.followers == old(ctx).followers,
                ctx.spawners == old(ctx).spawners,
                ctx.collision_world == old(ctx).collision_world,
                ctx.contacts == old(ctx).contacts,
                forall|id: u32|
                    ids@.take(k as int).contains(id) && old(ctx).transforms.occupied(id)
                        ==> ctx.transforms.value_at(id) == Some(
                        Transform {
                            x: mx,
                            y: my,
                            z: old(ctx).transforms.value_at(id)->Some_0.z,
                            rot: old(ctx).transforms.value_at(id)->Some_0.rot,
                        },
                    ),
                forall|id: u32|
                    !ids@.take(k as int).contains(id) ==> ctx.transforms.value_at(id) == old(
                        ctx,
                    ).transforms.value_at(id),
                forall|id: u32|
                    ids@.take(k as int).contains(id) && !old(ctx).transforms.occupied(id)
                        ==> ctx.transforms.value_at(id) == old(ctx).transforms.value_at(id),
                ctx.transforms.log().len() >= old(ctx).transforms.log().len(),
                ctx.transforms.log().take(old(ctx).transforms.log().len() as int) == old(
                    ctx,
                ).transforms.log(),
                forall|j: int|
                    old(ctx).transforms.log().len() <= j < ctx.transforms.log().len() ==> (
                    #[trigger] ctx.transforms.log()[j]) is Modified,
                ctx.transforms.channel.cursors@ == old(ctx).transforms.channel.cursors@,
            decreases n - k,
        {
            let id = ids[k];
            proof {
                assert(ids@.contains(id)) by {
                    assert(ids@[k as int] == id);
                }
                if ids@.take(k as int).contains(id) {
                    let q = choose|q: int|
                        0 <= q < k as int && #[trigger] ids@.take(k as int)[q] == id;
                    assert(ids@[q] == ids@[k as int]);
                    assert(false);
                }
                assert(ids@.take(k + 1).drop_last() =~= ids@.take(k as int));
                assert(ids@.take(k + 1).last() == id);
                assert forall|i: u32|
                    #[trigger] ids@.take(k + 1).contains(i) implies (i == id || ids@.take(
                    k as int,
                ).contains(i)) by {
                    let q = choose|q: int|
                        0 <= q < ids@.take(k + 1).len() && #[trigger] ids@.take(k + 1)[q] == i;
                    if q < k as int {
                        assert(ids@.take(k as int)[q] == i);
                    }
                }
                assert forall|i: u32|
                    (i == id || ids@.take(k as int).contains(i)) implies #[trigger] ids@.take(
                    k + 1,
                ).contains(i) by {
                    if i == id {
                        assert(ids@.take(k + 1)[k as int] == i);
                    } else {
                        let q = choose|q: int|
                            0 <= q < ids@.take(k as int).len() && #[trigger] ids@.take(
                                k as int,
                            )[q] == i;
                        assert(ids@.take(k + 1)[q] == i);
                    }
                }
            }
            match ctx.transforms.get(id) {
                Err(_) => {},
                Ok(tref) => {
                    let t = *tref;
                    let _ = ctx.transforms.replace(
                        id,
                        Transform { x: mx, y: my, z: t.z, rot: t.rot },
                    );
                    proof {
                        assert(ctx.transforms.log().take(
                            old(ctx).transforms.log().len() as int,
                        ) =~= old(ctx).transforms.log());
                    }
                },
            }
            k = k + 1;
        }
        proof {
            assert(ids@.take(n as int) =~= ids@);
        }
    }
}

/// Pulls every cursor-following entity a configured fraction of the way
/// toward the pointer position.
pub struct FollowMouseSystem;

impl FollowMouseSystem {
    /// With a pointer position, every entity that both follows the cursor
    /// and is placed moves by its per-mille ratio of its distance to the
    /// target on each axis; with no pointer nothing moves. Only the
    /// transform storage changes, and its log gains nothing but `Modified`
    /// flags.
    pub fn run(&self, ctx: &mut Context, mouse: Option<(i64, i64)>)
        requires
            old(ctx).wf(),
        ensures
            final(ctx).wf(),
            final(ctx).entities == old(ctx).entities,
            final(ctx).colliders == old(ctx).colliders,
            final(ctx).affiliations == old(ctx).affiliations,
            final(ctx).falling_objects == old(ctx).falling_objects,
            final(ctx).players == old(ctx).players,
            final(ctx).followers == old(ctx).followers,
            final(ctx).spawners == old(ctx).spawners,
            final(ctx).collision_world == old(ctx).collision_world,
            final(ctx).contacts == old(ctx).contacts,
            mouse is None ==> final(ctx).transforms == old(ctx).transforms,
            mouse matches Some((mx, my)) ==> {
                &&& forall|id: u32|
                    old(ctx).followers.occupied(id) && old(ctx).transforms.occupied(id)
                        ==> final(ctx).transforms.value_at(id) == Some(
                        follow_step(
                            old(ctx).transforms.value_at(id)->Some_0,
                            old(ctx).followers.value_at(id)->Some_0,
                            mx,
                            my,
                        ),
                    )
                &&& forall|id: u32|
                    !(old(ctx).followers.occupied(id) && old(ctx).transforms.occupied(id))
                        ==> final(ctx).transforms.value_at(id) == old(
                        ctx,
                    ).transforms.value_at(id)
                &&& final(ctx).transforms.log().len() >= old(ctx).transforms.log().len()
                &&& final(ctx).transforms.log().take(old(ctx).transforms.log().len() as int)
                    == old(ctx).transforms.log()
                &&& forall|j: int|
                    old(ctx).transforms.log().len() <= j < final(ctx).transforms.log().len()
                        ==> (#[trigger] final(ctx).transforms.log()[j]) is Modified
                &&& final(ctx).transforms.channel.cursors@ == old(
                    ctx,
                ).transforms.channel.cursors@
            },
    {
        let (mx, my) = match mouse {
            Some(p) => p,
            None => {
                return ;
            },
        };
        let ids = ctx.followers.ids();
        let n = ids.len();
        let mut k: usize = 0;
        while k < n
            invariant
                k <= n,
                n == ids@.len(),
                ctx.wf(),
                forall|q: int| 0 <= q < ids@.len() ==> old(ctx).followers.occupied(
                    #[trigger] ids@[q],
                ),
                forall|id: u32| old(ctx).followers.occupied(id) ==> ids@.contains(id),
                forall|q1: int, q2: int| 0 <= q1 < q2 < ids@.len() ==> ids@[q1] != ids@[q2],
                ctx.entities == old(ctx).entities,
                ctx.colliders == old(ctx).colliders,
                ctx.affiliations == old(ctx).affiliations,
                ctx.falling_objects == old(ctx).falling_objects,
                ctx.players == old(ctx).players,
                ctx.followers == old(ctx).followers,
                ctx.spawners == old(ctx).spawners,
                ctx.collision_world == old(ctx).collision_world,
                ctx.contacts == old(ctx).contacts,
                forall|id: u32|
                    ids@.take(k as int).contains(id) && old(ctx).transforms.occupied(id)
                        ==> ctx.transforms.value_at(id) == Some(
                        follow_step(
                            old(ctx).transforms.value_at(id)->Some_0,
                            old(ctx).followers.value_at(id)->Some_0,
                            mx,
                            my,
                        ),
                    ),
                forall|id: u32|
                    !ids@.take(k as int).contains(id) ==> ctx.transforms.value_at(id) == old(
                        ctx,
                    ).transforms.value_at(id),
                forall|id: u32|
                    ids@.take(k as int).contains(id) && !old(ctx).transforms.occupied(id)
                        ==> ctx.transforms.value_at(id) == old(ctx).transforms.value_at(id),
                ctx.transforms.log().len() >= old(ctx).transforms.log().len(),
                ctx.transforms.log().take(old(ctx).transforms.log().len() as int) == old(
                    ctx,
                ).transforms.log(),
                forall|j: int|
                    old(ctx).transforms.log().len() <= j < ctx.transforms.log().len() ==> (
                    #[trigger] ctx.transforms.log()[j]) is Modified,
                ctx.transforms.channel.cursors@ == old(ctx).transforms.channel.cursors@,
            decreases n - k,
        {
            let id = ids[k];
            let f = match ctx.followers.get(id) {
                Ok(f) => *f,
                Err(_) => {
                    proof {
                        assert(false);
                    }
                    FollowMouse { x_ratio: 0, y_ratio: 0 }
                },
            };
            proof {
                assert(ids@.contains(id)) by {
                    assert(ids@[k as int] == id);
                }
                if ids@.take(k as int).contains(id) {
                    let q = choose|q: int|
                        0 <= q < k as int && #[trigger] ids@.take(k as int)[q] == id;
                    assert(ids@[q] == ids@[k as int]);
                    assert(false);
                }
                assert(ids@.take(k + 1).drop_last() =~= ids@.take(k as int));
                assert(ids@.take(k + 1).last() == id);
                assert forall|i: u32|
                    #[trigger] ids@.take(k + 1).contains(i) implies (i == id || ids@.take(
                    k as int,
                ).contains(i)) by {
                    let q = choose|q: int|
                        0 <= q < ids@.take(k + 1).len() && #[trigger] ids@.take(k + 1)[q] == i;
                    if q < k as int {
                        assert(ids@.take(k as int)[q] == i);
                    }
                }
                assert forall|i: u32|
                    (i == id || ids@.take(k as int).contains(i)) implies #[trigger] ids@.take(
                    k + 1,
                ).contains(i) by {
                    if i == id {
                        assert(ids@.take(k + 1)[k as int] == i);
                    } else {
                        let q = choose|q: int|
                            0 <= q < ids@.take(k as int).len() && #[trigger] ids@.take(
                                k as int,
                            )[q] == i;
                        assert(ids@.take(k + 1)[q] == i);
                    }
                }
            }
            match ctx.transforms.get(id) {
                Err(_) => {},
                Ok(tref) => {
                    let t = *tref;
                    let dx = ratio_of_exec(t.x, mx, f.x_ratio);
                    let dy = ratio_of_exec(t.y, my, f.y_ratio);
                    let moved = Transform {
                        x: crate::util::sat_add64(t.x, dx),
                        y: crate::util::sat_add64(t.y, dy),
                        z: t.z,
                        rot: t.rot,
                    };
                    let _ = ctx.transforms.replace(id, moved);
                    proof {
                        assert(ctx.transforms.log().take(
                            old(ctx).transforms.log().len() as int,
                        ) =~= old(ctx).transforms.log());
                    }
                },
            }
            k = k + 1;
        }
        proof {
            assert(ids@.take(n as int) =~= ids@);
        }
    }
}

} // verus!
