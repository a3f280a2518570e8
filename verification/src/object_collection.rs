//! Contact classifier: drains the contact event log through its own cursor
//! and applies the catch / miss rule to every `Started` contact. A correct
//! catch deletes the block entity (whose index-side cleanup lands on the
//! next synchronizer tick via the lifecycle log); a miss and an anomalous
//! pairing are only counted. `Stopped` events carry no game semantics.

use vstd::prelude::*;

use crate::Entity;
use crate::channel::ReaderId;
use crate::context::Context;
use crate::falldown::{Affiliation, CollectionEvent, classify, classify_spec};
use crate::registry::bump_generation;
use crate::storage::storage_removed;
use crate::sync_collision_world::sat_inc;
use crate::world::{ContactEvent, EntityContactEvent};

verus! {

/// The affiliation a (possibly stale) entity reference resolves to: present
/// only while the entity is alive and carries the tag.
pub open spec fn affiliation_of_spec(ctx: Context, e: Entity) -> Option<Affiliation> {
    if ctx.entities.entity_alive(e) && ctx.affiliations.occupied(e.index) {
        Some(ctx.affiliations.value_at(e.index)->Some_0)
    } else {
        None
    }
}

fn affiliation_of(ctx: &Context, e: Entity) -> (out: Option<Affiliation>)
    requires
        ctx.wf(),
    ensures
        out == affiliation_of_spec(*ctx, e),
{
    if ctx.entities.is_alive(e) {
        match ctx.affiliations.get(e.index) {
            Ok(a) => Some(*a),
            Err(_) => None,
        }
    } else {
        None
    }
}

/// Context equality up to the contact event log (whose cursors the
/// classifier advances for itself).
pub open spec fn same_but_contacts(post: Context, pre: Context) -> bool {
    &&& post.entities == pre.entities
    &&& post.transforms == pre.transforms
    &&& post.colliders == pre.colliders
    &&& post.affiliations == pre.affiliations
    &&& post.falling_objects == pre.falling_objects
    &&& post.players == pre.players
    &&& post.followers == pre.followers
    &&& post.spawners == pre.spawners
    &&& post.collision_world == pre.collision_world
}

/// What deleting the live entity `e` does to the context: its slot dies
/// with a bumped generation and every component storage vacates the slot,
/// publishing its removal event.
pub open spec fn deletion_effect(pre: Context, e: Entity, post: Context) -> bool {
    &&& !post.entities.index_alive(e.index)
    &&& post.entities.slot_count() == pre.entities.slot_count()
    &&& post.entities.freed@ == pre.entities.freed@.push(e.index)
    &&& post.entities.generations@ == pre.entities.generations@.update(
        e.index as int,
        bump_generation(e.generation),
    )
    &&& forall|i: u32|
        i != e.index ==> post.entities.index_alive(i) == pre.entities.index_alive(i)
    &&& storage_removed(pre.transforms, post.transforms, e.index)
    &&& storage_removed(pre.colliders, post.colliders, e.index)
    &&& storage_removed(pre.affiliations, post.affiliations, e.index)
    &&& storage_removed(pre.falling_objects, post.falling_objects, e.index)
    &&& storage_removed(pre.players, post.players, e.index)
    &&& storage_removed(pre.followers, post.followers, e.index)
    &&& storage_removed(pre.spawners, post.spawners, e.index)
    &&& post.collision_world == pre.collision_world
}

/// The exact effect of classifying one drained contact event, with the
/// counters as (caught, missed, anomalies): a `Stopped` event is discarded;
/// a `Started` event is classified from the two participants' affiliations
/// as they stand at that moment; a correct catch deletes the block, a miss
/// only counts, an anomalous pairing only counts.
pub open spec fn collect_rel(
    pre: Context,
    c: (u64, u64, u64),
    ev: EntityContactEvent,
    post: Context,
    d: (u64, u64, u64),
) -> bool {
    match ev.2 {
        ContactEvent::Stopped(_, _) => same_but_contacts(post, pre) && d == c,
        ContactEvent::Started(_, _) => {
            let a1 = affiliation_of_spec(pre, ev.0);
            let a2 = affiliation_of_spec(pre, ev.1);
            match classify_spec(ev.0, a1, ev.1, a2) {
                CollectionEvent::Unknown => same_but_contacts(post, pre) && d == (
                    c.0,
                    c.1,
                    sat_inc(c.2),
                ),
                CollectionEvent::CaughtBlock { player, block, color, is_correct } => {
                    if is_correct {
                        deletion_effect(pre, block, post) && d == (sat_inc(c.0), c.1, c.2)
                    } else {
                        same_but_contacts(post, pre) && d == (c.0, sat_inc(c.1), c.2)
                    }
                },
            }
        },
    }
}

/// `collect_rel` chained over a whole drained sequence, in order.
pub open spec fn collect_chain(
    pre: Context,
    c: (u64, u64, u64),
    evs: Seq<EntityContactEvent>,
    post: Context,
    d: (u64, u64, u64),
) -> bool
    decreases evs.len(),
{
    if evs.len() == 0 {
        same_but_contacts(post, pre) && d == c
    } else {
        exists|mid: Context, m: (u64, u64, u64)|
            #![trigger collect_rel(pre, c, evs[0], mid, m)]
            collect_rel(pre, c, evs[0], mid, m) && collect_chain(mid, m, evs.skip(1), post, d)
    }
}

/// Extending a chain by one more processed event.
proof fn lemma_chain_snoc(
    pre: Context,
    c: (u64, u64, u64),
    evs: Seq<EntityContactEvent>,
    mid: Context,
    m: (u64, u64, u64),
    ev: EntityContactEvent,
    post: Context,
    d: (u64, u64, u64),
)
    requires
        collect_chain(pre, c, evs, mid, m),
        collect_rel(mid, m, ev, post, d),
    ensures
        collect_chain(pre, c, evs.push(ev), post, d),
    decreases evs.len(),
{
    if evs.len() == 0 {
        assert(evs.push(ev)[0] == ev);
        assert(evs.push(ev).skip(1).len() == 0);
        assert(same_but_contacts(mid, pre) && m == c);
        assert(collect_rel(pre, c, ev, post, d)) by {
            lemma_rel_shift_pre(mid, pre, m, ev, post, d);
        }
        assert(collect_chain(post, d, evs.push(ev).skip(1), post, d)) by {
            assert(same_but_contacts(post, post));
        }
        assert(collect_rel(pre, c, evs.push(ev)[0], post, d));
    } else {
        let (mid1, m1) = choose|mid1: Context, m1: (u64, u64, u64)|
            #![trigger collect_rel(pre, c, evs[0], mid1, m1)]
            collect_rel(pre, c, evs[0], mid1, m1) && collect_chain(
                mid1,
                m1,
                evs.skip(1),
                mid,
                m,
            );
        lemma_chain_snoc(mid1, m1, evs.skip(1), mid, m, ev, post, d);
        assert(evs.push(ev).skip(1) =~= evs.skip(1).push(ev));
        assert(evs.push(ev)[0] == evs[0]);
        assert(collect_rel(pre, c, evs.push(ev)[0], mid1, m1));
    }
}

/// A classification step only reads the parts of the context that
/// `same_but_contacts` pins, so it can be replayed from an equal-up-to-the-
/// contact-log state.
proof fn lemma_rel_shift_pre(
    mid: Context,
    pre: Context,
    m: (u64, u64, u64),
    ev: EntityContactEvent,
    post: Context,
    d: (u64, u64, u64),
)
    requires
        same_but_contacts(mid, pre),
        collect_rel(mid, m, ev, post, d),
    ensures
        collect_rel(pre, m, ev, post, d),
{
    assert(affiliation_of_spec(pre, ev.0) == affiliation_of_spec(mid, ev.0));
    assert(affiliation_of_spec(pre, ev.1) == affiliation_of_spec(mid, ev.1));
}

/// The classifier system: its own cursor on the contact event log and the
/// running tallies of correct catches, misses, and anomalous pairings.
pub struct ObjectCollection {
    pub contact_reader: Option<ReaderId>,
    pub caught: u64,
    pub missed: u64,
    pub anomalies: u64,
}

impl ObjectCollection {
    pub open spec fn counters(&self) -> (u64, u64, u64) {
        (self.caught, self.missed, self.anomalies)
    }

    pub fn new() -> (s: Self)
        ensures
            s.contact_reader is None,
            s.counters() == (0u64, 0u64, 0u64),
    {
        ObjectCollection { contact_reader: None, caught: 0, missed: 0, anomalies: 0 }
    }

    /// Registers this system's reader on the contact event log.
    pub fn setup(&mut self, ctx: &mut Context)
        requires
            old(ctx).wf(),
        ensures
            final(ctx).wf(),
            final(self).contact_reader is Some,
            final(ctx).contacts.registered(final(self).contact_reader->0),
            final(ctx).contacts.cursor_of(final(self).contact_reader->0) == old(
                ctx,
            ).contacts.events@.len(),
            final(self).counters() == old(self).counters(),
            final(ctx).contacts.events@ == old(ctx).contacts.events@,
            final(ctx).contacts.cursors@ == old(ctx).contacts.cursors@.push(
                old(ctx).contacts.events@.len() as usize,
            ),
            final(ctx).entities == old(ctx).entities,
            final(ctx).transforms == old(ctx).transforms,
            final(ctx).colliders == old(ctx).colliders,
            final(ctx).affiliations == old(ctx).affiliations,
            final(ctx).falling_objects == old(ctx).falling_objects,
            final(ctx).players == old(ctx).players,
            final(ctx).followers == old(ctx).followers,
            final(ctx).spawners == old(ctx).spawners,
            final(ctx).collision_world == old(ctx).collision_world,
    {
        let r = ctx.register_contact_reader();
        self.contact_reader = Some(r);
    }

    /// Applies the catch / miss rule to one drained contact event.
    fn collect_one(&mut self, ctx: &mut Context, ev: EntityContactEvent)
        requires
            old(ctx).wf(),
        ensures
            final(ctx).wf(),
            collect_rel(
                *old(ctx),
                old(self).counters(),
                ev,
                *final(ctx),
                final(self).counters(),
            ),
            final(self).contact_reader == old(self).contact_reader,
            final(ctx).contacts == old(ctx).contacts,
    {
        match ev.2 {
            ContactEvent::Stopped(_, _) => {},
            ContactEvent::Started(_, _) => {
                let a1 = affiliation_of(ctx, ev.0);
                let a2 = affiliation_of(ctx, ev.1);
                match classify(ev.0, a1, ev.1, a2) {
                    CollectionEvent::Unknown => {
                        if self.anomalies < u64::MAX {
                            self.anomalies = self.anomalies + 1;
                        }
                    },
                    CollectionEvent::CaughtBlock { player: _, block, color: _, is_correct } => {
                        if is_correct {
                            let res = ctx.delete_entity(block);
                            proof {
                                assert(old(ctx).entities.entity_alive(block));
                                assert(res is Ok);
                            }
                            if self.caught < u64::MAX {
                                self.caught = self.caught + 1;
                            }
                        } else {
                            if self.missed < u64::MAX {
                                self.missed = self.missed + 1;
                            }
                        }
                    },
                }
            },
        }
    }

    /// One classifier tick: drains every not-yet-seen contact event and
    /// applies the catch / miss rule to each, in emission order, exactly as
    /// `collect_chain` describes.
    pub fn run(&mut self, ctx: &mut Context)
        requires
            old(ctx).wf(),
            old(self).contact_reader is Some,
            old(ctx).contacts.registered(old(self).contact_reader->0),
        ensures
            final(ctx).wf(),
            final(self).contact_reader == old(self).contact_reader,
            final(ctx).contacts.events@ == old(ctx).contacts.events@,
            final(ctx).contacts.cursors@ == old(ctx).contacts.cursors@.update(
                old(self).contact_reader->0.id as int,
                old(ctx).contacts.events@.len() as usize,
            ),
            collect_chain(
                *old(ctx),
                old(self).counters(),
                old(ctx).contacts.pending(old(self).contact_reader->0),
                *final(ctx),
                final(self).counters(),
            ),
    {
        let r = match &self.contact_reader {
            Some(r) => ReaderId { id: r.id },
            None => {
                proof {
                    assert(false);
                }
                ReaderId { id: 0 }
            },
        };
        let drained = match ctx.contacts.read(&r) {
            Ok(v) => v,
            Err(_) => {
                proof {
                    assert(false);
                }
                Vec::new()
            },
        };
        let ghost ev = old(ctx).contacts.pending(r);
        proof {
            assert(drained@ == ev);
        }
        let ghost contacts1 = ctx.contacts;
        let ghost c0 = self.counters();
        let n = drained.len();
        let mut k: usize = 0;
        while k < n
            invariant
                k <= n,
                n == ev.len(),
                drained@ == ev,
                ctx.wf(),
                ctx.contacts == contacts1,
                self.contact_reader == old(self).contact_reader,
                collect_chain(*old(ctx), c0, ev.take(k as int), *ctx, self.counters()),
                c0 == old(self).counters(),
            decreases n - k,
        {
            let ghost mid = *ctx;
            let ghost m = self.counters();
            let event = drained[k];
            self.collect_one(ctx, event);
            proof {
                lemma_chain_snoc(
                    *old(ctx),
                    c0,
                    ev.take(k as int),
                    mid,
                    m,
                    event,
                    *ctx,
                    self.counters(),
                );
                assert(ev.take(k + 1) =~= ev.take(k as int).push(event));
            }
            k = k + 1;
        }
        proof {
            assert(ev.take(n as int) =~= ev);
        }
    }
}

} // verus!
