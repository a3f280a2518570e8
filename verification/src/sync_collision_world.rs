//! Collision synchronizer: drains the collider lifecycle log, keeps the
//! spatial index in one-to-one correspondence with the live collider
//! components, pushes per-tick transforms into the index, runs its contact
//! pass, and republishes the resulting contact events against the owning
//! entities.

use vstd::prelude::*;

use hibitset::BitSet;

use crate::ProtocolError;
use crate::bitset::{bitset_add, bitset_clear, bitset_drain, bitset_new, bitset_elems};
use crate::channel::ReaderId;
use crate::context::Context;
use crate::falldown::{Collider, Transform};
use crate::registry::ENTITY_INDEX_LIMIT;
use crate::storage::{DetailedComponentEvent, RemovalFlaggedStorage, ToEvent, storage_inserted, storage_removed};
use crate::world::{ContactEvent, EntityCollisionWorld, EntityContactEvent};

verus! {

/// The handle field of every live collider, keyed by slot index.
pub open spec fn handle_map(s: RemovalFlaggedStorage<Collider, Option<u64>>) -> Map<
    u32,
    Option<u64>,
> {
    Map::new(|i: u32| s.occupied(i), |i: u32| s.value_at(i)->Some_0.handle)
}

/// Whether some index entry is owned by slot index `i`.
pub open spec fn owner_slot_present(w: EntityCollisionWorld, i: u32) -> bool {
    exists|h: u64| #[trigger] w.has_handle(h) && w.entry_of(h).owner.index == i
}

/// The handle of the entry owned by slot index `i` (meaningful when the
/// owners are injective and such an entry exists).
pub open spec fn owner_slot_handle(w: EntityCollisionWorld, i: u32) -> u64 {
    choose|h: u64| #[trigger] w.has_handle(h) && w.entry_of(h).owner.index == i
}

/// The index contents read back as a handle map: each slot index owning an
/// entry maps to `Some` of that entry's handle. This is the state the last
/// completed tick left behind.
pub open spec fn synced_map(w: EntityCollisionWorld) -> Map<u32, Option<u64>> {
    Map::new(|i: u32| owner_slot_present(w, i), |i: u32| Some(owner_slot_handle(w, i)))
}

/// No two index entries are owned by the same slot.
pub open spec fn world_owner_injective(w: EntityCollisionWorld) -> bool {
    forall|h1: u64, h2: u64|
        #![trigger w.entry_of(h1), w.entry_of(h2)]
        w.has_handle(h1) && w.has_handle(h2) && w.entry_of(h1).owner.index == w.entry_of(
            h2,
        ).owner.index ==> h1 == h2
}

/// One lifecycle event replayed onto a handle map.
pub open spec fn apply_event(
    m: Map<u32, Option<u64>>,
    ev: DetailedComponentEvent<Option<u64>>,
) -> Map<u32, Option<u64>> {
    match ev {
        DetailedComponentEvent::Inserted(i) => m.insert(i, None),
        DetailedComponentEvent::Modified(_) => m,
        DetailedComponentEvent::Removed(i, _) => m.remove(i),
    }
}

/// A whole pending suffix replayed onto a handle map.
pub open spec fn apply_events(
    m: Map<u32, Option<u64>>,
    evs: Seq<DetailedComponentEvent<Option<u64>>>,
) -> Map<u32, Option<u64>>
    decreases evs.len(),
{
    if evs.len() == 0 {
        m
    } else {
        apply_events(apply_event(m, evs[0]), evs.skip(1))
    }
}

/// The pending suffix is consistent with the storage's fail-fast discipline:
/// inserts hit vacant slots, modifications and removals hit occupied ones,
/// and each removal's payload is the handle field the slot held.
pub open spec fn events_valid(
    m: Map<u32, Option<u64>>,
    evs: Seq<DetailedComponentEvent<Option<u64>>>,
) -> bool
    decreases evs.len(),
{
    evs.len() == 0 || {
        &&& match evs[0] {
            DetailedComponentEvent::Inserted(i) => !m.contains_key(i),
            DetailedComponentEvent::Modified(i) => m.contains_key(i),
            DetailedComponentEvent::Removed(i, p) => m.contains_key(i) && p == m[i],
        }
        &&& events_valid(apply_event(m, evs[0]), evs.skip(1))
    }
}

/// The slot indices that an `Inserted` event of the suffix mentions.
pub open spec fn inserted_ids(evs: Seq<DetailedComponentEvent<Option<u64>>>) -> Set<u32>
    decreases evs.len(),
{
    if evs.len() == 0 {
        Set::empty()
    } else {
        let s = inserted_ids(evs.drop_last());
        match evs.last() {
            DetailedComponentEvent::Inserted(i) => s.insert(i),
            _ => s,
        }
    }
}

/// The handles carried by `Removed` events of the suffix, in order; events
/// whose component was never synchronized carry no handle and contribute
/// nothing.
pub open spec fn removed_handles(evs: Seq<DetailedComponentEvent<Option<u64>>>) -> Seq<u64>
    decreases evs.len(),
{
    if evs.len() == 0 {
        Seq::empty()
    } else {
        let s = removed_handles(evs.drop_last());
        match evs.last() {
            DetailedComponentEvent::Removed(_, p) => if p is Some {
                s.push(p->Some_0)
            } else {
                s
            },
            _ => s,
        }
    }
}

pub open spec fn sat_inc(c: u64) -> u64 {
    if c == u64::MAX {
        c
    } else {
        (c + 1) as u64
    }
}

/// The anomaly counter after logging every `Removed` event that carried no
/// handle (a collider deleted before it was ever synchronized).
pub open spec fn anomalies_after(
    c: u64,
    evs: Seq<DetailedComponentEvent<Option<u64>>>,
) -> u64
    decreases evs.len(),
{
    if evs.len() == 0 {
        c
    } else {
        let p = anomalies_after(c, evs.drop_last());
        match evs.last() {
            DetailedComponentEvent::Removed(_, q) => if q is None {
                sat_inc(p)
            } else {
                p
            },
            _ => p,
        }
    }
}

/// Whether the suffix holds any `Removed` event for slot `i`.
pub open spec fn has_removed(evs: Seq<DetailedComponentEvent<Option<u64>>>, i: u32) -> bool {
    exists|k: int|
        0 <= k < evs.len() && ((#[trigger] evs[k]) matches DetailedComponentEvent::Removed(
            j,
            _,
        ) && j == i)
}

/// The handles a contact event names.
pub open spec fn ev_handles(ev: ContactEvent) -> (u64, u64) {
    match ev {
        ContactEvent::Started(a, b) => (a, b),
        ContactEvent::Stopped(a, b) => (a, b),
    }
}

/// Contact events lifted to the entities owning the two entries; an event
/// naming an entry that is already gone (a stale stop) is dropped.
pub open spec fn lift_contact_events(
    w: EntityCollisionWorld,
    evs: Seq<ContactEvent>,
) -> Seq<EntityContactEvent>
    decreases evs.len(),
{
    if evs.len() == 0 {
        Seq::empty()
    } else {
        let front = lift_contact_events(w, evs.drop_last());
        let hs = ev_handles(evs.last());
        if w.has_handle(hs.0) && w.has_handle(hs.1) {
            front + seq![
                (w.entry_of(hs.0).owner, w.entry_of(hs.1).owner, evs.last()),
            ]
        } else {
            front
        }
    }
}

/// The bijection invariant over a collider storage and an index: the slots
/// holding a live collider with a resolved handle correspond one-to-one with
/// the entries of the index, each collider's handle naming the entry it
/// owns.
pub open spec fn storage_world_bijection(
    s: RemovalFlaggedStorage<Collider, Option<u64>>,
    w: EntityCollisionWorld,
) -> bool {
    &&& forall|i: u32|
        #[trigger] s.occupied(i) ==> {
            &&& s.value_at(i)->Some_0.handle is Some
            &&& w.has_handle(s.value_at(i)->Some_0.handle->0)
            &&& w.entry_of(s.value_at(i)->Some_0.handle->0).owner.index == i
        }
    &&& forall|h: u64|
        #[trigger] w.has_handle(h) ==> {
            &&& s.occupied(w.entry_of(h).owner.index)
            &&& s.value_at(w.entry_of(h).owner.index)->Some_0.handle == Some(h)
        }
}

/// The bijection invariant, read off a whole simulation context.
pub open spec fn collider_index_bijection(ctx: Context) -> bool {
    storage_world_bijection(ctx.colliders, ctx.collision_world)
}

/// Relates a synced-map entry to the index entry behind it.
pub proof fn lemma_synced_map_entry(w: EntityCollisionWorld, i: u32, h: u64)
    requires
        world_owner_injective(w),
        w.has_handle(h),
        w.entry_of(h).owner.index == i,
    ensures
        synced_map(w).contains_key(i),
        synced_map(w)[i] == Some(h),
{
    assert(owner_slot_present(w, i));
    let h2 = owner_slot_handle(w, i);
    assert(w.has_handle(h2) && w.entry_of(h2).owner.index == i);
}

/// A slot that survives the replay without ever being re-inserted was in
/// the map from the start, kept its value, and saw no removal.
pub proof fn lemma_survivor_untouched(
    m: Map<u32, Option<u64>>,
    evs: Seq<DetailedComponentEvent<Option<u64>>>,
    i: u32,
)
    requires
        events_valid(m, evs),
        apply_events(m, evs).contains_key(i),
        !inserted_ids(evs).contains(i),
    ensures
        m.contains_key(i),
        apply_events(m, evs)[i] == m[i],
        !has_removed(evs, i),
    decreases evs.len(),
{
    if evs.len() > 0 {
        let m1 = apply_event(m, evs[0]);
        let rest = evs.skip(1);
        lemma_inserted_ids_split(evs);
        assert(!inserted_ids(rest).contains(i));
        lemma_survivor_untouched(m1, rest, i);
        match evs[0] {
            DetailedComponentEvent::Inserted(j) => {
                assert(inserted_ids(evs).contains(j));
                assert(j != i);
            },
            DetailedComponentEvent::Modified(_) => {},
            DetailedComponentEvent::Removed(j, _) => {
                if j == i {
                    assert(!m1.contains_key(i));
                    assert(false);
                }
            },
        }
        assert forall|k: int|
            0 <= k < evs.len() && ((#[trigger] evs[k]) matches DetailedComponentEvent::Removed(
                j,
                _,
            ) && j == i) implies false by {
            if k == 0 {
            } else {
                assert(rest[k - 1] == evs[k]);
                assert(has_removed(rest, i));
            }
        }
    }
}

/// `inserted_ids` of a nonempty suffix splits into the head event and the
/// rest.
pub proof fn lemma_inserted_ids_split(evs: Seq<DetailedComponentEvent<Option<u64>>>)
    requires
        evs.len() > 0,
    ensures
        inserted_ids(evs) == (match evs[0] {
            DetailedComponentEvent::Inserted(i) => inserted_ids(evs.skip(1)).insert(i),
            _ => inserted_ids(evs.skip(1)),
        }),
    decreases evs.len(),
{
    if evs.len() == 1 {
        assert(evs.drop_last().len() == 0);
        assert(evs.skip(1).len() == 0);
        assert(evs.last() == evs[0]);
        assert(inserted_ids(evs.drop_last()) =~= Set::<u32>::empty());
        assert(inserted_ids(evs.skip(1)) =~= Set::<u32>::empty());
        match evs[0] {
            DetailedComponentEvent::Inserted(i) => {
                assert(inserted_ids(evs) =~= inserted_ids(evs.skip(1)).insert(i));
            },
            _ => {},
        }
    } else {
        let rest = evs.skip(1);
        lemma_inserted_ids_split(rest);
        assert(evs.drop_last()[0] == evs[0]);
        lemma_inserted_ids_split(evs.drop_last());
        assert(evs.drop_last().skip(1) =~= rest.drop_last());
        assert(rest.last() == evs.last());
        match evs.last() {
            DetailedComponentEvent::Inserted(i) => {
                match evs[0] {
                    DetailedComponentEvent::Inserted(j) => {
                        assert(inserted_ids(evs) == inserted_ids(evs.drop_last()).insert(i));
                        assert(inserted_ids(evs.drop_last()) == inserted_ids(
                            rest.drop_last(),
                        ).insert(j));
                        assert(inserted_ids(rest) == inserted_ids(rest.drop_last()).insert(i));
                        assert(inserted_ids(rest.drop_last()).insert(j).insert(i)
                            =~= inserted_ids(rest.drop_last()).insert(i).insert(j));
                    },
                    _ => {},
                }
            },
            _ => {
                match evs[0] {
                    DetailedComponentEvent::Inserted(j) => {},
                    _ => {},
                }
            },
        }
    }
}

/// Every handle among the removal payloads is the value some slot held in
/// the starting map, and that slot saw a removal.
pub proof fn lemma_removed_handle_source(
    m: Map<u32, Option<u64>>,
    evs: Seq<DetailedComponentEvent<Option<u64>>>,
    h: u64,
)
    requires
        events_valid(m, evs),
        removed_handles(evs).contains(h),
    ensures
        exists|i: u32|
            #![trigger m.contains_key(i)]
            m.contains_key(i) && m[i] == Some(h) && has_removed(evs, i),
    decreases evs.len(),
{
    lemma_removed_handles_split(evs);
    let m1 = apply_event(m, evs[0]);
    let rest = evs.skip(1);
    match evs[0] {
        DetailedComponentEvent::Removed(j, p) => {
            if p == Some(h) {
                assert(m.contains_key(j) && m[j] == Some(h));
                assert(evs[0] matches DetailedComponentEvent::Removed(i2, _) && i2 == j);
                assert(has_removed(evs, j));
            } else {
                lemma_removed_handle_source(m1, rest, h);
                let i = choose|i: u32|
                    #![trigger m1.contains_key(i)]
                    m1.contains_key(i) && m1[i] == Some(h) && has_removed(rest, i);
                assert(i != j);
                lemma_has_removed_lifts(evs, i);
                assert(m.contains_key(i) && m[i] == Some(h));
            }
        },
        DetailedComponentEvent::Inserted(j) => {
            lemma_removed_handle_source(m1, rest, h);
            let i = choose|i: u32|
                #![trigger m1.contains_key(i)]
                m1.contains_key(i) && m1[i] == Some(h) && has_removed(rest, i);
            assert(m1[i] == Some(h));
            assert(i != j || m1[j] is None);
            assert(i != j);
            lemma_has_removed_lifts(evs, i);
        },
        DetailedComponentEvent::Modified(_) => {
            lemma_removed_handle_source(m1, rest, h);
            let i = choose|i: u32|
                #![trigger m1.contains_key(i)]
                m1.contains_key(i) && m1[i] == Some(h) && has_removed(rest, i);
            lemma_has_removed_lifts(evs, i);
        },
    }
}

/// A removal in the tail of the suffix is a removal in the suffix.
pub proof fn lemma_has_removed_lifts(evs: Seq<DetailedComponentEvent<Option<u64>>>, i: u32)
    requires
        evs.len() > 0,
        has_removed(evs.skip(1), i),
    ensures
        has_removed(evs, i),
{
    let rest = evs.skip(1);
    let k = choose|k: int|
        0 <= k < rest.len() && ((#[trigger] rest[k]) matches DetailedComponentEvent::Removed(
            j,
            _,
        ) && j == i);
    assert(evs[k + 1] == rest[k]);
}

/// `removed_handles` of a nonempty suffix splits into the head event and
/// the rest.
pub proof fn lemma_removed_handles_split(evs: Seq<DetailedComponentEvent<Option<u64>>>)
    requires
        evs.len() > 0,
    ensures
        removed_handles(evs) == (match evs[0] {
            DetailedComponentEvent::Removed(_, p) => if p is Some {
                seq![p->Some_0] + removed_handles(evs.skip(1))
            } else {
                removed_handles(evs.skip(1))
            },
            _ => removed_handles(evs.skip(1)),
        }),
    decreases evs.len(),
{
    if evs.len() == 1 {
        assert(evs.last() == evs[0]);
        assert(evs.drop_last().len() == 0);
        assert(evs.skip(1).len() == 0);
        assert(removed_handles(evs.drop_last()) =~= Seq::<u64>::empty());
        assert(removed_handles(evs.skip(1)) =~= Seq::<u64>::empty());
        match evs[0] {
            DetailedComponentEvent::Removed(_, p) => {
                if p is Some {
                    assert(removed_handles(evs) =~= seq![p->Some_0] + removed_handles(
                        evs.skip(1),
                    ));
                }
            },
            _ => {},
        }
    } else {
        let rest = evs.skip(1);
        lemma_removed_handles_split(rest);
        assert(evs.drop_last()[0] == evs[0]);
        lemma_removed_handles_split(evs.drop_last());
        assert(evs.drop_last().skip(1) =~= rest.drop_last());
        assert(rest.last() == evs.last());
        match evs.last() {
            DetailedComponentEvent::Removed(_, q) => {
                if q is Some {
                    match evs[0] {
                        DetailedComponentEvent::Removed(_, p) => {
                            if p is Some {
                                assert((seq![p->Some_0] + removed_handles(rest.drop_last()))
                                    .push(q->Some_0) =~= seq![p->Some_0] + removed_handles(
                                    rest.drop_last(),
                                ).push(q->Some_0));
                            }
                        },
                        _ => {},
                    }
                }
            },
            _ => {},
        }
    }
}

/// A slot holding `Some(h)` that never loses `h` to a removal survives the
/// whole replay with that same value, untouched by insertion.
pub proof fn lemma_kept_handle(
    m: Map<u32, Option<u64>>,
    evs: Seq<DetailedComponentEvent<Option<u64>>>,
    i: u32,
    h: u64,
)
    requires
        events_valid(m, evs),
        m.contains_key(i),
        m[i] == Some(h),
        !removed_handles(evs).contains(h),
    ensures
        apply_events(m, evs).contains_key(i),
        apply_events(m, evs)[i] == Some(h),
        !inserted_ids(evs).contains(i),
        !has_removed(evs, i),
    decreases evs.len(),
{
    if evs.len() > 0 {
        lemma_removed_handles_split(evs);
        let m1 = apply_event(m, evs[0]);
        let rest = evs.skip(1);
        lemma_inserted_ids_split(evs);
        match evs[0] {
            DetailedComponentEvent::Inserted(j) => {
                assert(j != i);
                assert(!removed_handles(rest).contains(h));
                lemma_kept_handle(m1, rest, i, h);
            },
            DetailedComponentEvent::Modified(_) => {
                assert(!removed_handles(rest).contains(h));
                lemma_kept_handle(m1, rest, i, h);
            },
            DetailedComponentEvent::Removed(j, p) => {
                if j == i {
                    assert(p == Some(h));
                    assert(removed_handles(evs).contains(h)) by {
                        assert(removed_handles(evs)[0] == h);
                    }
                    assert(false);
                }
                assert forall|x: u64|
                    removed_handles(rest).contains(x) implies #[trigger] removed_handles(
                    evs,
                ).contains(x) by {
                    let k = choose|k: int|
                        0 <= k < removed_handles(rest).len() && removed_handles(rest)[k] == x;
                    if p is Some {
                        assert(removed_handles(evs)[k + 1] == x);
                    } else {
                        assert(removed_handles(evs)[k] == x);
                    }
                }
                lemma_kept_handle(m1, rest, i, h);
            },
        }
        assert forall|k: int|
            0 <= k < evs.len() && ((#[trigger] evs[k]) matches DetailedComponentEvent::Removed(
                j,
                _,
            ) && j == i) implies false by {
            if k > 0 {
                assert(rest[k - 1] == evs[k]);
                assert(has_removed(rest, i));
            }
        }
    }
}

/// A pending suffix of pure modifications of occupied slots is valid and
/// replays to the same map.
pub proof fn lemma_modified_only_valid(
    m: Map<u32, Option<u64>>,
    evs: Seq<DetailedComponentEvent<Option<u64>>>,
)
    requires
        forall|k: int|
            0 <= k < evs.len() ==> (#[trigger] evs[k]) is Modified && m.contains_key(
                evs[k].slot(),
            ),
    ensures
        events_valid(m, evs),
        apply_events(m, evs) == m,
    decreases evs.len(),
{
    if evs.len() > 0 {
        let rest = evs.skip(1);
        assert(forall|k: int| 0 <= k < rest.len() ==> rest[k] == evs[k + 1]);
        assert(apply_event(m, evs[0]) == m);
        lemma_modified_only_valid(m, rest);
    }
}

/// The lifecycle events the synchronizer's reader has not yet drained.
pub open spec fn pending_of(sys: SyncCollisionWorld, ctx: Context) -> Seq<
    DetailedComponentEvent<Option<u64>>,
> {
    ctx.colliders.channel.pending(sys.collision_reader_id->0)
}

/// The synchronizer's inductive invariant between ticks: its reader is
/// registered, index entries are owned injectively, and replaying the
/// not-yet-drained lifecycle events over the index's handle map yields
/// exactly the storage's current handle map. Component slots stay inside
/// the scratch set's index range.
pub open spec fn sync_inv(sys: SyncCollisionWorld, ctx: Context) -> bool {
    &&& ctx.wf()
    &&& sys.collision_reader_id is Some
    &&& ctx.colliders.channel.registered(sys.collision_reader_id->0)
    &&& world_owner_injective(ctx.collision_world)
    &&& events_valid(synced_map(ctx.collision_world), pending_of(sys, ctx))
    &&& apply_events(synced_map(ctx.collision_world), pending_of(sys, ctx)) == handle_map(
        ctx.colliders,
    )
    &&& forall|i: u32| #[trigger] ctx.colliders.occupied(i) ==> i < ENTITY_INDEX_LIMIT
    &&& forall|k: int|
        0 <= k < pending_of(sys, ctx).len() ==> (#[trigger] pending_of(sys, ctx)[k]).slot()
            < ENTITY_INDEX_LIMIT
}

/// Appending one more event that is consistent with the replayed state
/// keeps the suffix valid and replays as one more step.
proof fn lemma_events_valid_snoc(
    m: Map<u32, Option<u64>>,
    evs: Seq<DetailedComponentEvent<Option<u64>>>,
    e: DetailedComponentEvent<Option<u64>>,
)
    requires
        events_valid(m, evs),
        match e {
            DetailedComponentEvent::Inserted(i) => !apply_events(m, evs).contains_key(i),
            DetailedComponentEvent::Modified(i) => apply_events(m, evs).contains_key(i),
            DetailedComponentEvent::Removed(i, p) => apply_events(m, evs).contains_key(i) && p
                == apply_events(m, evs)[i],
        },
    ensures
        events_valid(m, evs.push(e)),
        apply_events(m, evs.push(e)) == apply_event(apply_events(m, evs), e),
    decreases evs.len(),
{
    if evs.len() == 0 {
        assert(evs.push(e)[0] == e);
        assert(evs.push(e).skip(1).len() == 0);
        assert(apply_events(m, evs) == m);
        assert(events_valid(apply_event(m, e), evs.push(e).skip(1)));
        assert(apply_events(m, evs.push(e)) == apply_events(apply_event(m, e), evs.push(
            e,
        ).skip(1)));
    } else {
        let m1 = apply_event(m, evs[0]);
        assert(evs.push(e)[0] == evs[0]);
        assert(evs.push(e).skip(1) =~= evs.skip(1).push(e));
        lemma_events_valid_snoc(m1, evs.skip(1), e);
    }
}

/// The invariant is self-healing across ticks: occupying a vacant collider
/// slot between two synchronizer runs (with no handle yet, as every fresh
/// collider is built) preserves it, because the insertion announces itself
/// on the lifecycle log.
pub proof fn lemma_insert_preserves_inv(
    sys: SyncCollisionWorld,
    pre: Context,
    post: Context,
    i: u32,
    c: Collider,
)
    requires
        sync_inv(sys, pre),
        post.wf(),
        post.collision_world == pre.collision_world,
        !pre.colliders.occupied(i),
        storage_inserted(pre.colliders, post.colliders, i, c),
        c.handle is None,
        i < ENTITY_INDEX_LIMIT,
    ensures
        sync_inv(sys, post),
{
    let m0 = synced_map(pre.collision_world);
    let ev = pending_of(sys, pre);
    let e = DetailedComponentEvent::<Option<u64>>::Inserted(i);
    assert(pending_of(sys, post) =~= ev.push(e));
    lemma_events_valid_snoc(m0, ev, e);
    assert(apply_events(m0, ev.push(e)) =~= handle_map(post.colliders));
    assert forall|j: u32| #[trigger] post.colliders.occupied(j) implies j
        < ENTITY_INDEX_LIMIT by {
        if j != i {
            assert(post.colliders.value_at(j) == pre.colliders.value_at(j));
            assert(pre.colliders.occupied(j));
        }
    }
    assert forall|k: int|
        0 <= k < pending_of(sys, post).len() implies (#[trigger] pending_of(sys, post)[
        k]).slot() < ENTITY_INDEX_LIMIT by {
        if k < ev.len() {
            assert(pending_of(sys, post)[k] == ev[k]);
        } else {
            assert(pending_of(sys, post)[k] == e);
        }
    }
}

/// The invariant is self-healing across ticks: vacating an occupied collider
/// slot between two synchronizer runs preserves it, because the removal
/// event carries the handle field the slot held.
pub proof fn lemma_remove_preserves_inv(
    sys: SyncCollisionWorld,
    pre: Context,
    post: Context,
    i: u32,
)
    requires
        sync_inv(sys, pre),
        post.wf(),
        post.collision_world == pre.collision_world,
        pre.colliders.occupied(i),
        storage_removed(pre.colliders, post.colliders, i),
    ensures
        sync_inv(sys, post),
{
    let m0 = synced_map(pre.collision_world);
    let ev = pending_of(sys, pre);
    let e = DetailedComponentEvent::<Option<u64>>::Removed(
        i,
        pre.colliders.value_at(i)->Some_0.to_event_spec(),
    );
    assert(pending_of(sys, post) =~= ev.push(e));
    assert(apply_events(m0, ev).contains_key(i));
    assert(apply_events(m0, ev)[i] == pre.colliders.value_at(i)->Some_0.handle);
    lemma_events_valid_snoc(m0, ev, e);
    assert(apply_events(m0, ev.push(e)) =~= handle_map(post.colliders));
    assert forall|j: u32| #[trigger] post.colliders.occupied(j) implies j
        < ENTITY_INDEX_LIMIT by {
        if j != i {
            assert(post.colliders.value_at(j) == pre.colliders.value_at(j));
            assert(pre.colliders.occupied(j));
        }
    }
    assert forall|k: int|
        0 <= k < pending_of(sys, post).len() implies (#[trigger] pending_of(sys, post)[
        k]).slot() < ENTITY_INDEX_LIMIT by {
        if k < ev.len() {
            assert(pending_of(sys, post)[k] == ev[k]);
        } else {
            assert(pending_of(sys, post)[k] == e);
        }
    }
}

/// The invariant is self-healing across ticks: replacing an occupied
/// collider in place preserves it as long as the handle field is kept, which
/// is how every caller but the synchronizer itself treats colliders.
pub proof fn lemma_modify_preserves_inv(
    sys: SyncCollisionWorld,
    pre: Context,
    post: Context,
    i: u32,
    c: Collider,
)
    requires
        sync_inv(sys, pre),
        post.wf(),
        post.collision_world == pre.collision_world,
        pre.colliders.occupied(i),
        storage_inserted(pre.colliders, post.colliders, i, c),
        c.handle == pre.colliders.value_at(i)->Some_0.handle,
    ensures
        sync_inv(sys, post),
{
    let m0 = synced_map(pre.collision_world);
    let ev = pending_of(sys, pre);
    let e = DetailedComponentEvent::<Option<u64>>::Modified(i);
    assert(pending_of(sys, post) =~= ev.push(e));
    assert(apply_events(m0, ev).contains_key(i));
    lemma_events_valid_snoc(m0, ev, e);
    assert(apply_events(m0, ev.push(e)) =~= handle_map(post.colliders));
    assert forall|j: u32| #[trigger] post.colliders.occupied(j) implies j
        < ENTITY_INDEX_LIMIT by {
        if j != i {
            assert(post.colliders.value_at(j) == pre.colliders.value_at(j));
            assert(pre.colliders.occupied(j));
        }
    }
    assert forall|k: int|
        0 <= k < pending_of(sys, post).len() implies (#[trigger] pending_of(sys, post)[
        k]).slot() < ENTITY_INDEX_LIMIT by {
        if k < ev.len() {
            assert(pending_of(sys, post)[k] == ev[k]);
        } else {
            assert(pending_of(sys, post)[k] == e);
        }
    }
}

/// The system that keeps the spatial index synchronized with the collider
/// storage: a registered reader on the collider lifecycle log, a scratch
/// set of newly inserted slots and a scratch list of handles to batch-remove
/// (both rebuilt every tick), and a count of the removal anomalies observed
/// (colliders removed before they were ever synchronized).
pub struct SyncCollisionWorld {
    pub collision_reader_id: Option<ReaderId>,
    pub removed_colliders_vec: Vec<u64>,
    pub added_colliders: BitSet,
    pub anomalies: u64,
}

impl SyncCollisionWorld {
    pub fn new() -> (s: Self)
        ensures
            s.collision_reader_id is None,
            s.anomalies == 0,
    {
        SyncCollisionWorld {
            collision_reader_id: None,
            removed_colliders_vec: Vec::new(),
            added_colliders: bitset_new(),
            anomalies: 0,
        }
    }

    /// Registers this system's reader on the collider lifecycle log. Called
    /// once, while the index still agrees with the storage (at startup both
    /// are empty); from then on `run` keeps the invariant.
    pub fn setup(&mut self, ctx: &mut Context)
        requires
            old(ctx).wf(),
            world_owner_injective(old(ctx).collision_world),
            synced_map(old(ctx).collision_world) == handle_map(old(ctx).colliders),
            forall|i: u32|
                #[trigger] old(ctx).colliders.occupied(i) ==> i < ENTITY_INDEX_LIMIT,
        ensures
            sync_inv(*final(self), *final(ctx)),
            final(self).collision_reader_id is Some,
            final(self).anomalies == old(self).anomalies,
            final(self).removed_colliders_vec@ == old(self).removed_colliders_vec@,
            final(ctx).colliders.slots@ == old(ctx).colliders.slots@,
            final(ctx).colliders.log() == old(ctx).colliders.log(),
            final(ctx).colliders.channel.cursors@ == old(ctx).colliders.channel.cursors@.push(
                old(ctx).colliders.log().len() as usize,
            ),
            final(ctx).entities == old(ctx).entities,
            final(ctx).transforms == old(ctx).transforms,
            final(ctx).affiliations == old(ctx).affiliations,
            final(ctx).falling_objects == old(ctx).falling_objects,
            final(ctx).players == old(ctx).players,
            final(ctx).followers == old(ctx).followers,
            final(ctx).spawners == old(ctx).spawners,
            final(ctx).collision_world == old(ctx).collision_world,
            final(ctx).contacts == old(ctx).contacts,
    {
        let r = ctx.colliders.register_detailed_reader();
        self.collision_reader_id = Some(r);
        proof {
            assert(pending_of(*self, *ctx) =~= Seq::<
                DetailedComponentEvent<Option<u64>>,
            >::empty());
            assert(pending_of(*self, *ctx).len() == 0);
            assert(handle_map(ctx.colliders) =~= handle_map(old(ctx).colliders));
            assert forall|i: u32| #[trigger] ctx.colliders.occupied(i) implies i
                < ENTITY_INDEX_LIMIT by {
                assert(ctx.colliders.value_at(i) == old(ctx).colliders.value_at(i));
                assert(old(ctx).colliders.occupied(i));
            }
        }
    }

    /// One synchronizer tick. Drains the collider lifecycle log; registers
    /// every newly inserted collider with the spatial index and stores the
    /// returned handle back onto the component; batch-removes the handles
    /// carried by removal events (counting, without failing, removals whose
    /// collider was never synchronized); pushes the current transform of
    /// every collider entity into the index; runs the index's contact pass;
    /// and republishes each resulting contact event against the entities
    /// owning the two entries. Restores the bijection between live colliders
    /// and index entries. Fails fatally, changing nothing, only when the
    /// pending event volume could exhaust the index's handle space.
    #[verifier::rlimit(100)]
    pub fn run(&mut self, ctx: &mut Context) -> (out: Result<(), ProtocolError>)
        requires
            sync_inv(*old(self), *old(ctx)),
        ensures
            out is Err <==> pending_of(*old(self), *old(ctx)).len() as int >= u64::MAX as int
                - old(ctx).collision_world.next_handle as int,
            out is Err ==> {
                &&& out == Result::<(), ProtocolError>::Err(ProtocolError::CapacityExhausted)
                &&& *final(self) == *old(self)
                &&& *final(ctx) == *old(ctx)
            },
            final(self).collision_reader_id == old(self).collision_reader_id,
            out is Ok ==> {
                &&& sync_inv(*final(self), *final(ctx))
                &&& collider_index_bijection(*final(ctx))
                &&& final(self).anomalies == anomalies_after(
                    old(self).anomalies,
                    pending_of(*old(self), *old(ctx)),
                )
                &&& final(ctx).entities == old(ctx).entities
                &&& final(ctx).transforms == old(ctx).transforms
                &&& final(ctx).affiliations == old(ctx).affiliations
                &&& final(ctx).falling_objects == old(ctx).falling_objects
                &&& final(ctx).players == old(ctx).players
                &&& final(ctx).followers == old(ctx).followers
                &&& final(ctx).spawners == old(ctx).spawners
                &&& forall|i: u32|
                    final(ctx).colliders.occupied(i) == old(ctx).colliders.occupied(i)
                &&& forall|i: u32|
                    #[trigger] final(ctx).colliders.occupied(i) ==> {
                        &&& final(ctx).colliders.value_at(i)->Some_0.shape == old(ctx).colliders.value_at(i)->Some_0.shape
                        &&& final(ctx).colliders.value_at(i)->Some_0.groups == old(ctx).colliders.value_at(i)->Some_0.groups
                        &&& final(ctx).colliders.value_at(i)->Some_0.query_type == old(ctx).colliders.value_at(i)->Some_0.query_type
                    }
                &&& final(ctx).colliders.log().len() >= old(ctx).colliders.log().len()
                &&& final(ctx).colliders.log().take(old(ctx).colliders.log().len() as int)
                    == old(ctx).colliders.log()
                &&& final(ctx).contacts.events@ == old(ctx).contacts.events@
                    + lift_contact_events(
                    final(ctx).collision_world,
                    final(ctx).collision_world.events@,
                )
                &&& final(ctx).contacts.cursors@ == old(ctx).contacts.cursors@
                &&& forall|a: u64, b: u64|
                    #[trigger] final(ctx).collision_world.events@.contains(
                        ContactEvent::Started(a, b),
                    ) <==> (final(ctx).collision_world.overlapping_pair(a, b) && !old(ctx).collision_world.contacts@.contains((a, b)))
                &&& forall|a: u64, b: u64|
                    #[trigger] final(ctx).collision_world.events@.contains(
                        ContactEvent::Stopped(a, b),
                    ) <==> (old(ctx).collision_world.contacts@.contains((a, b)) && !final(ctx).collision_world.overlapping_pair(a, b))
                &&& forall|a: u64, b: u64|
                    #[trigger] final(ctx).collision_world.contacts@.contains((a, b)) <==> final(ctx).collision_world.overlapping_pair(a, b)
                &&& forall|k1: int, k2: int|
                    0 <= k1 < k2 < final(ctx).collision_world.events@.len() ==> final(ctx).collision_world.events@[k1] != final(ctx).collision_world.events@[k2]
                &&& forall|i: u32|
                    #[trigger] final(ctx).colliders.occupied(i) && final(ctx).transforms.occupied(i) ==> final(ctx).collision_world.entry_of(
                        final(ctx).colliders.value_at(i)->Some_0.handle->0,
                    ).position == crate::world::clamp_transform_spec(
                        final(ctx).transforms.value_at(i)->Some_0,
                    )
                &&& forall|i: u32|
                    #[trigger] final(ctx).colliders.occupied(i) && inserted_ids(
                        pending_of(*old(self), *old(ctx)),
                    ).contains(i) ==> {
                        &&& final(ctx).collision_world.entry_of(
                            final(ctx).colliders.value_at(i)->Some_0.handle->0,
                        ).shape == final(ctx).colliders.value_at(i)->Some_0.shape
                        &&& final(ctx).collision_world.entry_of(
                            final(ctx).colliders.value_at(i)->Some_0.handle->0,
                        ).groups == final(ctx).colliders.value_at(i)->Some_0.groups
                        &&& final(ctx).collision_world.entry_of(
                            final(ctx).colliders.value_at(i)->Some_0.handle->0,
                        ).query_type == final(ctx).colliders.value_at(i)->Some_0.query_type
                        &&& final(ctx).collision_world.entry_of(
                            final(ctx).colliders.value_at(i)->Some_0.handle->0,
                        ).owner == old(ctx).entities.entity_at_spec(i)
                    }
                &&& forall|i: u32|
                    #[trigger] final(ctx).colliders.occupied(i) && !inserted_ids(
                        pending_of(*old(self), *old(ctx)),
                    ).contains(i) ==> final(ctx).colliders.value_at(i) == old(
                        ctx,
                    ).colliders.value_at(i)
                &&& tick_world_frame(
                    old(ctx).collision_world,
                    final(ctx).collision_world,
                    pending_of(*old(self), *old(ctx)),
                )
                &&& final(ctx).colliders.channel.cursors@ == old(
                    ctx,
                ).colliders.channel.cursors@.update(
                    old(self).collision_reader_id->0.id as int,
                    old(ctx).colliders.log().len() as usize,
                )
            },
    {
        let ghost w0 = ctx.collision_world;
        let ghost store0 = ctx.colliders;
        let ghost e0 = ctx.entities;
        let ghost contacts0 = ctx.contacts;
        let r = match &self.collision_reader_id {
            Some(r) => ReaderId { id: r.id },
            None => {
                proof {
                    assert(false);
                }
                ReaderId { id: 0 }
            },
        };
        proof {
            assert(r == old(self).collision_reader_id->0);
        }
        let log_len = ctx.colliders.channel.events.len();
        let cursor = ctx.colliders.channel.cursors[r.id];
        let pend = log_len - cursor;
        if pend as u64 >= u64::MAX - ctx.collision_world.next_handle {
            return Err(ProtocolError::CapacityExhausted);
        }
        let ghost ev = pending_of(*old(self), *old(ctx));
        let ghost m0 = synced_map(w0);
        proof {
            assert(ev.len() == pend);
        }
        self.removed_colliders_vec.clear();
        bitset_clear(&mut self.added_colliders);
        let events = match ctx.colliders.read_detailed(&r) {
            Ok(v) => v,
            Err(_) => {
                proof {
                    assert(false);
                }
                Vec::new()
            },
        };
        proof {
            assert(events@ == ev);
        }
        let ghost store1 = ctx.colliders;
        let a0 = self.anomalies;
        let n_ev = events.len();
        let mut k: usize = 0;
        let mut fresh_inserts: usize = 0;
        while k < n_ev
            invariant
                k <= n_ev,
                n_ev == ev.len(),
                events@ == ev,
                ctx.colliders == store1,
                ctx.collision_world == w0,
                ctx.entities == e0,
                ctx.contacts == contacts0,
                ctx.transforms == old(ctx).transforms,
                ctx.affiliations == old(ctx).affiliations,
                ctx.falling_objects == old(ctx).falling_objects,
                ctx.players == old(ctx).players,
                ctx.followers == old(ctx).followers,
                ctx.spawners == old(ctx).spawners,
                self.collision_reader_id == old(self).collision_reader_id,
                bitset_elems(self.added_colliders) == inserted_ids(ev.take(k as int)),
                bitset_elems(self.added_colliders).finite(),
                fresh_inserts == bitset_elems(self.added_colliders).len(),
                fresh_inserts <= k,
                self.removed_colliders_vec@ == removed_handles(ev.take(k as int)),
                self.anomalies == anomalies_after(a0, ev.take(k as int)),
                forall|k1: int|
                    0 <= k1 < ev.len() ==> (#[trigger] ev[k1]).slot() < ENTITY_INDEX_LIMIT,
            decreases n_ev - k,
        {
            let ghost prefix = ev.take(k as int);
            proof {
                assert(ev.take(k + 1).drop_last() =~= prefix);
                assert(ev.take(k + 1).last() == ev[k as int]);
            }
            match events[k] {
                DetailedComponentEvent::Modified(_) => {},
                DetailedComponentEvent::Inserted(id) => {
                    proof {
                        vstd::set::axiom_set_insert_len(
                            bitset_elems(self.added_colliders),
                            id,
                        );
                    }
                    let was_in = bitset_add(&mut self.added_colliders, id);
                    if !was_in {
                        fresh_inserts = fresh_inserts + 1;
                    }
                },
                DetailedComponentEvent::Removed(_, payload) => {
                    match payload {
                        Some(h) => {
                            self.removed_colliders_vec.push(h);
                        },
                        None => {
                            if self.anomalies < u64::MAX {
                                self.anomalies = self.anomalies + 1;
                            }
                        },
                    }
                },
            }
            k = k + 1;
        }
        proof {
            assert(ev.take(n_ev as int) =~= ev);
        }
        let added = bitset_drain(&mut self.added_colliders);
        proof {
            assert forall|q: int| 0 <= q < added@.len() implies inserted_ids(ev).contains(
                #[trigger] added@[q],
            ) by {
                assert(added@.contains(added@[q]));
            }
            lemma_distinct_seq_le_set(added@, inserted_ids(ev));
            assert(added@.len() <= ev.len());
        }
        let n_add = added.len();
        let mut k2: usize = 0;
        while k2 < n_add
            invariant
                k2 <= n_add,
                n_add == added@.len(),
                forall|id: u32| #[trigger] added@.contains(id) <==> inserted_ids(ev).contains(id),
                forall|q1: int, q2: int| 0 <= q1 < q2 < added@.len() ==> added@[q1] != added@[q2],
                added@.len() <= ev.len(),
                (ev.len() as int) < u64::MAX as int - w0.next_handle as int,
                self.collision_reader_id == old(self).collision_reader_id,
                self.removed_colliders_vec@ == removed_handles(ev),
                self.anomalies == anomalies_after(a0, ev),
                ctx.entities == e0,
                ctx.contacts == contacts0,
                ctx.transforms == old(ctx).transforms,
                ctx.affiliations == old(ctx).affiliations,
                ctx.falling_objects == old(ctx).falling_objects,
                ctx.players == old(ctx).players,
                ctx.followers == old(ctx).followers,
                ctx.spawners == old(ctx).spawners,
                ctx.colliders.wf(),
                ctx.colliders.channel.cursors@ == store1.channel.cursors@,
                ctx.colliders.log().len() >= store1.log().len(),
                ctx.colliders.log().take(store1.log().len() as int) == store1.log(),
                forall|j: int|
                    store1.log().len() <= j < ctx.colliders.log().len() ==> (
                    #[trigger] ctx.colliders.log()[j]) is Modified && ctx.colliders.occupied(
                        ctx.colliders.log()[j].slot(),
                    ),
                forall|i: u32|
                    !added@.take(k2 as int).contains(i) ==> ctx.colliders.value_at(i)
                        == store1.value_at(i),
                forall|i: u32|
                    #[trigger] added@.take(k2 as int).contains(i) ==> {
                        &&& ctx.colliders.occupied(i) == store1.occupied(i)
                        &&& (ctx.colliders.occupied(i) ==> {
                            &&& ctx.colliders.value_at(i)->Some_0.shape == store1.value_at(
                                i,
                            )->Some_0.shape
                            &&& ctx.colliders.value_at(i)->Some_0.groups == store1.value_at(
                                i,
                            )->Some_0.groups
                            &&& ctx.colliders.value_at(i)->Some_0.query_type == store1.value_at(
                                i,
                            )->Some_0.query_type
                            &&& ctx.colliders.value_at(i)->Some_0.handle is Some
                            &&& w0.next_handle <= ctx.colliders.value_at(i)->Some_0.handle->0
                            &&& ctx.colliders.value_at(i)->Some_0.handle->0
                                < ctx.collision_world.next_handle
                            &&& ctx.collision_world.has_handle(
                                ctx.colliders.value_at(i)->Some_0.handle->0,
                            )
                            &&& ctx.collision_world.entry_of(
                                ctx.colliders.value_at(i)->Some_0.handle->0,
                            ).owner.index == i
                        })
                    },
                ctx.collision_world.wf(),
                w0.next_handle <= ctx.collision_world.next_handle,
                ctx.collision_world.next_handle as int <= w0.next_handle as int + k2 as int,
                ctx.collision_world.contacts@ == w0.contacts@,
                ctx.collision_world.events@ == w0.events@,
                forall|h: u64|
                    h < w0.next_handle ==> #[trigger] ctx.collision_world.has_handle(h)
                        == w0.has_handle(h),
                forall|h: u64|
                    h < w0.next_handle && w0.has_handle(h)
                        ==> #[trigger] ctx.collision_world.entry_of(h) == w0.entry_of(h),
                forall|h: u64|
                    w0.next_handle <= h < ctx.collision_world.next_handle
                        ==> #[trigger] ctx.collision_world.has_handle(h),
                forall|h: u64|
                    #![trigger ctx.collision_world.entry_of(h)]
                    w0.next_handle <= h < ctx.collision_world.next_handle ==> {
                        &&& added@.take(k2 as int).contains(
                            ctx.collision_world.entry_of(h).owner.index,
                        )
                        &&& ctx.colliders.occupied(ctx.collision_world.entry_of(h).owner.index)
                        &&& ctx.colliders.value_at(
                            ctx.collision_world.entry_of(h).owner.index,
                        )->Some_0.handle == Some(h)
                        &&& ctx.collision_world.entry_of(h).owner == e0.entity_at_spec(
                            ctx.collision_world.entry_of(h).owner.index,
                        )
                        &&& ctx.collision_world.entry_of(h).shape == store1.value_at(
                            ctx.collision_world.entry_of(h).owner.index,
                        )->Some_0.shape
                        &&& ctx.collision_world.entry_of(h).groups == store1.value_at(
                            ctx.collision_world.entry_of(h).owner.index,
                        )->Some_0.groups
                        &&& ctx.collision_world.entry_of(h).query_type == store1.value_at(
                            ctx.collision_world.entry_of(h).owner.index,
                        )->Some_0.query_type
                    },
            decreases n_add - k2,
        {
            let id = added[k2];
            proof {
                assert(added@.contains(id)) by {
                    assert(added@[k2 as int] == id);
                }
                if added@.take(k2 as int).contains(id) {
                    let q = choose|q: int|
                        0 <= q < k2 as int && #[trigger] added@.take(k2 as int)[q] == id;
                    assert(added@[q] == added@[k2 as int]);
                    assert(false);
                }
                assert(added@.take(k2 + 1).drop_last() =~= added@.take(k2 as int));
                assert(added@.take(k2 + 1).last() == id);
                assert forall|i: u32|
                    #[trigger] added@.take(k2 + 1).contains(i) implies (i == id || added@.take(
                    k2 as int,
                ).contains(i)) by {
                    let q = choose|q: int|
                        0 <= q < added@.take(k2 + 1).len() && #[trigger] added@.take(k2 + 1)[q]
                            == i;
                    if q < k2 as int {
                        assert(added@.take(k2 as int)[q] == i);
                    }
                }
                assert forall|i: u32|
                    (i == id || added@.take(k2 as int).contains(i)) implies #[trigger]
                added@.take(k2 + 1).contains(i) by {
                    if i == id {
                        assert(added@.take(k2 + 1)[k2 as int] == i);
                    } else {
                        let q = choose|q: int|
                            0 <= q < added@.take(k2 as int).len() && #[trigger] added@.take(
                                k2 as int,
                            )[q] == i;
                        assert(added@.take(k2 + 1)[q] == i);
                    }
                }
            }
            let got = ctx.colliders.get(id);
            match got {
                Err(_) => {},
                Ok(cref) => {
                    let c = *cref;
                    let owner = ctx.entities.entity_at(id);
                    let h = ctx.collision_world.add(
                        Transform::at(0, 0, 0),
                        c.shape,
                        c.groups,
                        c.query_type,
                        owner,
                    );
                    let updated = Collider { handle: Some(h), ..c };
                    let replaced = ctx.colliders.replace(id, updated);
                    proof {
                        assert(replaced is Ok);
                        assert(ctx.colliders.log().take(store1.log().len() as int)
                            =~= store1.log());
                    }
                },
            }
            k2 = k2 + 1;
        }
        proof {
            assert(added@.take(n_add as int) =~= added@);
        }
        let ghost w1 = ctx.collision_world;
        let ghost s2 = ctx.colliders;
        proof {
            assert(handle_map(store1) =~= handle_map(store0));
            lemma_removed_vec_bounds(w0, ev, self.removed_colliders_vec@);
        }
        ctx.collision_world.remove(&self.removed_colliders_vec);
        let ghost w2 = ctx.collision_world;
        proof {
            lemma_reconcile_bijection(
                w0,
                w1,
                w2,
                store1,
                s2,
                ev,
                added@,
                self.removed_colliders_vec@,
            );
            assert(collider_index_bijection(*ctx));
            assert(world_owner_injective(ctx.collision_world));
        }
        let ids_list = ctx.colliders.ids();
        let ghost w2b = ctx.collision_world;
        let n_ids = ids_list.len();
        let mut k3: usize = 0;
        while k3 < n_ids
            invariant
                k3 <= n_ids,
                n_ids == ids_list@.len(),
                forall|q: int|
                    0 <= q < ids_list@.len() ==> ctx.colliders.occupied(#[trigger] ids_list@[q]),
                forall|id: u32| ctx.colliders.occupied(id) ==> ids_list@.contains(id),
                forall|q1: int, q2: int|
                    0 <= q1 < q2 < ids_list@.len() ==> ids_list@[q1] != ids_list@[q2],
                self.collision_reader_id == old(self).collision_reader_id,
                self.removed_colliders_vec@ == removed_handles(ev),
                self.anomalies == anomalies_after(a0, ev),
                ctx.colliders == s2,
                ctx.entities == e0,
                ctx.contacts == contacts0,
                ctx.transforms == old(ctx).transforms,
                ctx.affiliations == old(ctx).affiliations,
                ctx.falling_objects == old(ctx).falling_objects,
                ctx.players == old(ctx).players,
                ctx.followers == old(ctx).followers,
                ctx.spawners == old(ctx).spawners,
                ctx.collision_world.wf(),
                ctx.collision_world.next_handle == w2b.next_handle,
                ctx.collision_world.contacts@ == w2b.contacts@,
                ctx.collision_world.events@ == w2b.events@,
                forall|h: u64|
                    #[trigger] ctx.collision_world.has_handle(h) == w2b.has_handle(h),
                collider_index_bijection(*ctx),
                world_owner_injective(ctx.collision_world),
                forall|h: u64|
                    #![trigger ctx.collision_world.entry_of(h)]
                    ctx.collision_world.has_handle(h) ==> {
                        &&& ctx.collision_world.entry_of(h).owner == w2b.entry_of(h).owner
                        &&& ctx.collision_world.entry_of(h).shape == w2b.entry_of(h).shape
                        &&& ctx.collision_world.entry_of(h).groups == w2b.entry_of(h).groups
                        &&& ctx.collision_world.entry_of(h).query_type == w2b.entry_of(
                            h,
                        ).query_type
                        &&& (ids_list@.take(k3 as int).contains(w2b.entry_of(h).owner.index)
                            && ctx.transforms.occupied(w2b.entry_of(h).owner.index))
                            ==> ctx.collision_world.entry_of(h).position
                            == crate::world::clamp_transform_spec(
                            ctx.transforms.value_at(w2b.entry_of(h).owner.index)->Some_0,
                        )
                        &&& !(ids_list@.take(k3 as int).contains(w2b.entry_of(h).owner.index)
                            && ctx.transforms.occupied(w2b.entry_of(h).owner.index))
                            ==> ctx.collision_world.entry_of(h).position == w2b.entry_of(
                            h,
                        ).position
                    },
            decreases n_ids - k3,
        {
            let id = ids_list[k3];
            proof {
                assert(ctx.colliders.occupied(id));
                assert(ids_list@.take(k3 + 1).drop_last() =~= ids_list@.take(k3 as int));
                assert(ids_list@.take(k3 + 1).last() == id);
                assert forall|i: u32|
                    #[trigger] ids_list@.take(k3 + 1).contains(i) implies (i == id
                    || ids_list@.take(k3 as int).contains(i)) by {
                    let q = choose|q: int|
                        0 <= q < ids_list@.take(k3 + 1).len() && #[trigger] ids_list@.take(
                            k3 + 1,
                        )[q] == i;
                    if q < k3 as int {
                        assert(ids_list@.take(k3 as int)[q] == i);
                    }
                }
                assert forall|i: u32|
                    (i == id || ids_list@.take(k3 as int).contains(i)) implies #[trigger]
                ids_list@.take(k3 + 1).contains(i) by {
                    if i == id {
                        assert(ids_list@.take(k3 + 1)[k3 as int] == i);
                    } else {
                        let q = choose|q: int|
                            0 <= q < ids_list@.take(k3 as int).len() && #[trigger]
                            ids_list@.take(k3 as int)[q] == i;
                        assert(ids_list@.take(k3 + 1)[q] == i);
                    }
                }
            }
            let h = match ctx.colliders.get(id) {
                Ok(cref) => {
                    match cref.handle {
                        Some(h) => h,
                        None => {
                            proof {
                                assert(false);
                            }
                            0
                        },
                    }
                },
                Err(_) => {
                    proof {
                        assert(false);
                    }
                    0
                },
            };
            proof {
                assert(ctx.colliders.value_at(id)->Some_0.handle == Some(h));
                assert(ctx.collision_world.has_handle(h));
                assert(ctx.collision_world.entry_of(h).owner.index == id);
            }
            match ctx.transforms.get(id) {
                Err(_) => {},
                Ok(tref) => {
                    let t = *tref;
                    let ghost wpre = ctx.collision_world;
                    let res = ctx.collision_world.set_position(h, t);
                    proof {
                        assert(res is Ok);
                        assert forall|g: u64|
                            #![trigger ctx.collision_world.entry_of(g)]
                            ctx.collision_world.has_handle(g) && g != h implies
                        ctx.collision_world.entry_of(g) == wpre.entry_of(g) by {}
                        assert forall|g: u64|
                            #![trigger ctx.collision_world.entry_of(g)]
                            ctx.collision_world.has_handle(g) implies
                        ctx.collision_world.entry_of(g).owner.index != id || g == h by {
                            if ctx.collision_world.entry_of(g).owner.index == id && g != h {
                                assert(wpre.entry_of(g).owner.index == id);
                                assert(ctx.colliders.value_at(id)->Some_0.handle == Some(g));
                            }
                        }
                    }
                },
            }
            k3 = k3 + 1;
        }
        proof {
            assert(ids_list@.take(n_ids as int) =~= ids_list@);
        }
        let ghost w3 = ctx.collision_world;
        ctx.collision_world.update();
        let ghost w4 = ctx.collision_world;
        proof {
            assert forall|h: u64| w3.has_handle(h) implies w4.has_handle(h) && #[trigger]
            w4.entry_of(h) == w3.entry_of(h) by {
                let k = choose|k: int|
                    0 <= k < w3.entries@.len() && (#[trigger] w3.entries@[k]).0 == h;
                assert(w4.entries@[k].0 == h);
                w3.lemma_key_lookup(k);
                w4.lemma_key_lookup(k);
            }
            assert forall|h: u64| #[trigger] w4.has_handle(h) implies w3.has_handle(h) by {
                let k = choose|k: int|
                    0 <= k < w4.entries@.len() && (#[trigger] w4.entries@[k]).0 == h;
                assert(w3.entries@[k].0 == h);
            }
            assert(collider_index_bijection(*ctx));
            assert(world_owner_injective(ctx.collision_world));
        }
        let evs_copy = copy_contact_events(&ctx.collision_world);
        let n_ev2 = evs_copy.len();
        let mut k4: usize = 0;
        while k4 < n_ev2
            invariant
                k4 <= n_ev2,
                n_ev2 == evs_copy@.len(),
                evs_copy@ == w4.events@,
                ctx.collision_world == w4,
                ctx.colliders == s2,
                ctx.entities == e0,
                ctx.transforms == old(ctx).transforms,
                ctx.affiliations == old(ctx).affiliations,
                ctx.falling_objects == old(ctx).falling_objects,
                ctx.players == old(ctx).players,
                ctx.followers == old(ctx).followers,
                ctx.spawners == old(ctx).spawners,
                self.collision_reader_id == old(self).collision_reader_id,
                self.removed_colliders_vec@ == removed_handles(ev),
                self.anomalies == anomalies_after(a0, ev),
                ctx.contacts.wf(),
                ctx.contacts.cursors@ == contacts0.cursors@,
                ctx.contacts.events@ == contacts0.events@ + lift_contact_events(
                    w4,
                    evs_copy@.take(k4 as int),
                ),
                ctx.collision_world.wf(),
            decreases n_ev2 - k4,
        {
            let ev2 = evs_copy[k4];
            let hs = match ev2 {
                ContactEvent::Started(a, b) => (a, b),
                ContactEvent::Stopped(a, b) => (a, b),
            };
            let oa = ctx.collision_world.owner_of(hs.0);
            let ob = ctx.collision_world.owner_of(hs.1);
            let ghost pre_events = ctx.contacts.events@;
            match (oa, ob) {
                (Some(ea), Some(eb)) => {
                    ctx.contacts.single_write((ea, eb, ev2));
                },
                _ => {},
            }
            proof {
                assert(evs_copy@.take(k4 + 1).drop_last() =~= evs_copy@.take(k4 as int));
                assert(evs_copy@.take(k4 + 1).last() == ev2);
                assert(ev_handles(ev2) == hs);
                if w4.has_handle(hs.0) && w4.has_handle(hs.1) {
                    assert(ctx.contacts.events@ =~= contacts0.events@ + lift_contact_events(
                        w4,
                        evs_copy@.take(k4 + 1),
                    ));
                } else {
                    assert(ctx.contacts.events@ =~= contacts0.events@ + lift_contact_events(
                        w4,
                        evs_copy@.take(k4 + 1),
                    ));
                }
            }
            k4 = k4 + 1;
        }
        proof {
            assert(evs_copy@.take(n_ev2 as int) =~= evs_copy@);
            assert(w2b == w2);
            assert(ids_list@.take(n_ids as int) =~= ids_list@);
            lemma_finish_tick(
                *self,
                *ctx,
                *old(self),
                *old(ctx),
                store1,
                w0,
                w1,
                w2,
                w3,
                w4,
                ev,
                added@,
                ids_list@,
            );
        }
        Ok(())
    }
}

/// Everything the end of a tick owes its caller, assembled from the facts
/// the tick's phases established: the invariant is restored over the
/// now-pending modification flags, occupancy and untouched collider values
/// are preserved, fresh entries carry their collider's descriptor and
/// owner, placed colliders' entries carry their clamped transform, the
/// index changed only as `tick_world_frame` allows, and only this system's
/// cursor moved.
proof fn lemma_finish_tick(
    sys: SyncCollisionWorld,
    ctx: Context,
    sys0: SyncCollisionWorld,
    ctx0: Context,
    store1: RemovalFlaggedStorage<Collider, Option<u64>>,
    w0: EntityCollisionWorld,
    w1: EntityCollisionWorld,
    w2: EntityCollisionWorld,
    w3: EntityCollisionWorld,
    w4: EntityCollisionWorld,
    ev: Seq<DetailedComponentEvent<Option<u64>>>,
    added: Seq<u32>,
    ids_list: Seq<u32>,
)
    requires
        ctx.wf(),
        sys.collision_reader_id == sys0.collision_reader_id,
        sys0.collision_reader_id is Some,
        sys.removed_colliders_vec@ == removed_handles(ev),
        ctx.collision_world == w4,
        ctx0.collision_world == w0,
        w0.wf(),
        store1.slots@ == ctx0.colliders.slots@,
        store1.log() == ctx0.colliders.log(),
        store1.channel.cursors@ == ctx0.colliders.channel.cursors@.update(
            sys0.collision_reader_id->0.id as int,
            ctx0.colliders.log().len() as usize,
        ),
        ctx.colliders.channel.registered(sys0.collision_reader_id->0),
        ctx.colliders.channel.cursor_of(sys0.collision_reader_id->0) == store1.log().len(),
        ctx.colliders.channel.cursors@ == store1.channel.cursors@,
        ctx.colliders.log().len() >= store1.log().len(),
        ctx.colliders.log().take(store1.log().len() as int) == store1.log(),
        forall|j: int|
            store1.log().len() <= j < ctx.colliders.log().len() ==> (
            #[trigger] ctx.colliders.log()[j]) is Modified && ctx.colliders.occupied(
                ctx.colliders.log()[j].slot(),
            ),
        forall|i: u32| #[trigger] ctx0.colliders.occupied(i) ==> i < ENTITY_INDEX_LIMIT,
        forall|id: u32| #[trigger] added.contains(id) <==> inserted_ids(ev).contains(id),
        forall|i: u32|
            !added.contains(i) ==> ctx.colliders.value_at(i) == store1.value_at(i),
        forall|i: u32|
            #[trigger] added.contains(i) ==> {
                &&& ctx.colliders.occupied(i) == store1.occupied(i)
                &&& (ctx.colliders.occupied(i) ==> {
                    &&& ctx.colliders.value_at(i)->Some_0.shape == store1.value_at(
                        i,
                    )->Some_0.shape
                    &&& ctx.colliders.value_at(i)->Some_0.groups == store1.value_at(
                        i,
                    )->Some_0.groups
                    &&& ctx.colliders.value_at(i)->Some_0.query_type == store1.value_at(
                        i,
                    )->Some_0.query_type
                    &&& ctx.colliders.value_at(i)->Some_0.handle is Some
                    &&& w0.next_handle <= ctx.colliders.value_at(i)->Some_0.handle->0
                    &&& ctx.colliders.value_at(i)->Some_0.handle->0 < w1.next_handle
                    &&& w1.has_handle(ctx.colliders.value_at(i)->Some_0.handle->0)
                    &&& w1.entry_of(ctx.colliders.value_at(i)->Some_0.handle->0).owner.index
                        == i
                })
            },
        w0.next_handle <= w1.next_handle,
        forall|h: u64|
            h < w0.next_handle ==> #[trigger] w1.has_handle(h) == w0.has_handle(h),
        forall|h: u64|
            h < w0.next_handle && w0.has_handle(h) ==> #[trigger] w1.entry_of(h)
                == w0.entry_of(h),
        forall|h: u64|
            #![trigger w1.entry_of(h)]
            w0.next_handle <= h < w1.next_handle ==> {
                &&& added.contains(w1.entry_of(h).owner.index)
                &&& w1.entry_of(h).owner == ctx0.entities.entity_at_spec(
                    w1.entry_of(h).owner.index,
                )
                &&& w1.entry_of(h).shape == store1.value_at(
                    w1.entry_of(h).owner.index,
                )->Some_0.shape
                &&& w1.entry_of(h).groups == store1.value_at(
                    w1.entry_of(h).owner.index,
                )->Some_0.groups
                &&& w1.entry_of(h).query_type == store1.value_at(
                    w1.entry_of(h).owner.index,
                )->Some_0.query_type
            },
        forall|g: u64|
            #[trigger] w2.has_handle(g) <==> (w1.has_handle(g)
                && !sys.removed_colliders_vec@.contains(g)),
        forall|g: u64|
            !sys.removed_colliders_vec@.contains(g) && w1.has_handle(g)
                ==> #[trigger] w2.entry_of(g) == w1.entry_of(g),
        w2.next_handle == w1.next_handle,
        forall|h: u64| #[trigger] w3.has_handle(h) == w2.has_handle(h),
        w3.next_handle == w2.next_handle,
        forall|h: u64|
            #![trigger w3.entry_of(h)]
            w3.has_handle(h) ==> {
                &&& w3.entry_of(h).owner == w2.entry_of(h).owner
                &&& w3.entry_of(h).shape == w2.entry_of(h).shape
                &&& w3.entry_of(h).groups == w2.entry_of(h).groups
                &&& w3.entry_of(h).query_type == w2.entry_of(h).query_type
                &&& (ids_list.contains(w2.entry_of(h).owner.index) && ctx.transforms.occupied(
                    w2.entry_of(h).owner.index,
                )) ==> w3.entry_of(h).position == crate::world::clamp_transform_spec(
                    ctx.transforms.value_at(w2.entry_of(h).owner.index)->Some_0,
                )
            },
        forall|id: u32| ctx.colliders.occupied(id) ==> ids_list.contains(id),
        forall|h: u64| #[trigger] w4.has_handle(h) == w3.has_handle(h),
        forall|h: u64| w3.has_handle(h) ==> #[trigger] w4.entry_of(h) == w3.entry_of(h),
        w4.next_handle == w3.next_handle,
        storage_world_bijection(ctx.colliders, w4),
        world_owner_injective(w4),
    ensures
        sync_inv(sys, ctx),
        forall|i: u32| ctx.colliders.occupied(i) == ctx0.colliders.occupied(i),
        forall|i: u32|
            #[trigger] ctx.colliders.occupied(i) ==> {
                &&& ctx.colliders.value_at(i)->Some_0.shape == ctx0.colliders.value_at(
                    i,
                )->Some_0.shape
                &&& ctx.colliders.value_at(i)->Some_0.groups == ctx0.colliders.value_at(
                    i,
                )->Some_0.groups
                &&& ctx.colliders.value_at(i)->Some_0.query_type == ctx0.colliders.value_at(
                    i,
                )->Some_0.query_type
            },
        forall|i: u32|
            #[trigger] ctx.colliders.occupied(i) && ctx.transforms.occupied(i)
                ==> ctx.collision_world.entry_of(
                ctx.colliders.value_at(i)->Some_0.handle->0,
            ).position == crate::world::clamp_transform_spec(
                ctx.transforms.value_at(i)->Some_0,
            ),
        forall|i: u32|
            #[trigger] ctx.colliders.occupied(i) && inserted_ids(ev).contains(i) ==> {
                &&& ctx.collision_world.entry_of(
                    ctx.colliders.value_at(i)->Some_0.handle->0,
                ).shape == ctx.colliders.value_at(i)->Some_0.shape
                &&& ctx.collision_world.entry_of(
                    ctx.colliders.value_at(i)->Some_0.handle->0,
                ).groups == ctx.colliders.value_at(i)->Some_0.groups
                &&& ctx.collision_world.entry_of(
                    ctx.colliders.value_at(i)->Some_0.handle->0,
                ).query_type == ctx.colliders.value_at(i)->Some_0.query_type
                &&& ctx.collision_world.entry_of(
                    ctx.colliders.value_at(i)->Some_0.handle->0,
                ).owner == ctx0.entities.entity_at_spec(i)
            },
        forall|i: u32|
            #[trigger] ctx.colliders.occupied(i) && !inserted_ids(ev).contains(i)
                ==> ctx.colliders.value_at(i) == ctx0.colliders.value_at(i),
        tick_world_frame(ctx0.collision_world, ctx.collision_world, ev),
        ctx.colliders.channel.cursors@ == ctx0.colliders.channel.cursors@.update(
            sys0.collision_reader_id->0.id as int,
            ctx0.colliders.log().len() as usize,
        ),
{
    let rid = sys0.collision_reader_id->0;
    let pend2 = pending_of(sys, ctx);
    assert forall|j: int| 0 <= j < pend2.len() implies (#[trigger] pend2[j]) is Modified
        && ctx.colliders.occupied(pend2[j].slot()) by {
        assert(pend2[j] == ctx.colliders.log()[store1.log().len() + j]);
    }
    let msync = synced_map(ctx.collision_world);
    lemma_synced_equals_handle_map(ctx.colliders, ctx.collision_world);
    assert forall|j: int| 0 <= j < pend2.len() implies msync.contains_key(
        (#[trigger] pend2[j]).slot(),
    ) by {
        assert(handle_map(ctx.colliders).contains_key(pend2[j].slot()));
    }
    lemma_modified_only_valid(msync, pend2);
    assert forall|i: u32| #[trigger] ctx.colliders.occupied(i) implies i
        < ENTITY_INDEX_LIMIT by {
        if added.contains(i) {
            assert(store1.occupied(i));
            assert(ctx0.colliders.occupied(i));
        } else {
            assert(ctx.colliders.value_at(i) == store1.value_at(i));
            assert(ctx0.colliders.occupied(i));
        }
    }
    assert forall|i: u32| ctx.colliders.occupied(i) == ctx0.colliders.occupied(i) by {
        if added.contains(i) {
            assert(store1.occupied(i) == ctx0.colliders.occupied(i));
        } else {
            assert(ctx.colliders.value_at(i) == store1.value_at(i));
        }
    }
    assert(sync_inv(sys, ctx));
    assert forall|i: u32|
        #[trigger] ctx.colliders.occupied(i) && ctx.transforms.occupied(i) implies
    ctx.collision_world.entry_of(
        ctx.colliders.value_at(i)->Some_0.handle->0,
    ).position == crate::world::clamp_transform_spec(
        ctx.transforms.value_at(i)->Some_0,
    ) by {
        let h = ctx.colliders.value_at(i)->Some_0.handle->0;
        assert(ctx.collision_world.has_handle(h));
        assert(w3.has_handle(h));
        assert(w2.has_handle(h));
        assert(w2.entry_of(h).owner.index == i) by {
            assert(w3.entry_of(h).owner == w2.entry_of(h).owner);
            assert(w3.entry_of(h).owner.index == i);
        }
        assert(ids_list.contains(i));
        assert(w3.entry_of(h).position == crate::world::clamp_transform_spec(
            ctx.transforms.value_at(i)->Some_0,
        ));
        assert(w4.entry_of(h) == w3.entry_of(h));
    }
    assert forall|i: u32|
        #[trigger] ctx.colliders.occupied(i) && inserted_ids(ev).contains(i) implies {
        &&& ctx.collision_world.entry_of(
            ctx.colliders.value_at(i)->Some_0.handle->0,
        ).shape == ctx.colliders.value_at(i)->Some_0.shape
        &&& ctx.collision_world.entry_of(
            ctx.colliders.value_at(i)->Some_0.handle->0,
        ).groups == ctx.colliders.value_at(i)->Some_0.groups
        &&& ctx.collision_world.entry_of(
            ctx.colliders.value_at(i)->Some_0.handle->0,
        ).query_type == ctx.colliders.value_at(i)->Some_0.query_type
        &&& ctx.collision_world.entry_of(
            ctx.colliders.value_at(i)->Some_0.handle->0,
        ).owner == ctx0.entities.entity_at_spec(i)
    } by {
        assert(added.contains(i));
        let h = ctx.colliders.value_at(i)->Some_0.handle->0;
        assert(w0.next_handle <= h < w1.next_handle);
        assert(w1.entry_of(h).owner.index == i);
        assert(!sys.removed_colliders_vec@.contains(h)) by {
            if sys.removed_colliders_vec@.contains(h) {
                let q = choose|q: int|
                    0 <= q < sys.removed_colliders_vec@.len()
                        && sys.removed_colliders_vec@[q] == h;
                assert(removed_handles(ev)[q] == h);
                assert(removed_handles(ev).contains(h));
                lemma_removed_vec_bounds(w0, ev, removed_handles(ev));
            }
        }
        assert(w2.has_handle(h));
        assert(w2.entry_of(h) == w1.entry_of(h));
        assert(w3.has_handle(h));
        assert(w3.entry_of(h).shape == w2.entry_of(h).shape);
        assert(w3.entry_of(h).owner == w2.entry_of(h).owner);
        assert(w4.entry_of(h) == w3.entry_of(h));
        assert(w1.entry_of(h).owner == ctx0.entities.entity_at_spec(i));
        assert(w1.entry_of(h).shape == store1.value_at(i)->Some_0.shape);
        assert(ctx.colliders.value_at(i)->Some_0.shape == store1.value_at(
            i,
        )->Some_0.shape);
        assert(store1.value_at(i) == ctx0.colliders.value_at(i));
    }
    assert forall|i: u32|
        #[trigger] ctx.colliders.occupied(i) && !inserted_ids(ev).contains(i) implies
    ctx.colliders.value_at(i) == ctx0.colliders.value_at(i) by {
        assert(!added.contains(i));
        assert(ctx.colliders.value_at(i) == store1.value_at(i));
    }
    assert forall|i: u32| #[trigger] ctx.colliders.occupied(i) implies {
        &&& ctx.colliders.value_at(i)->Some_0.shape == ctx0.colliders.value_at(
            i,
        )->Some_0.shape
        &&& ctx.colliders.value_at(i)->Some_0.groups == ctx0.colliders.value_at(
            i,
        )->Some_0.groups
        &&& ctx.colliders.value_at(i)->Some_0.query_type == ctx0.colliders.value_at(
            i,
        )->Some_0.query_type
    } by {
        if added.contains(i) {
            assert(store1.value_at(i) == ctx0.colliders.value_at(i));
        } else {
            assert(ctx.colliders.value_at(i) == store1.value_at(i));
        }
    }
    lemma_world_frame(w0, w1, w2, w3, w4, ev, sys.removed_colliders_vec@);
}

/// How one tick may change the index relative to the drained events: it
/// loses exactly the entries named by the removal events' payloads; every
/// other pre-tick entry survives with its owner and descriptor intact (only
/// its position is re-pushed); and the handle counter never goes backwards,
/// so no surviving handle is reassigned.
#[verifier::opaque]
pub open spec fn tick_world_frame(
    w0: EntityCollisionWorld,
    w4: EntityCollisionWorld,
    ev: Seq<DetailedComponentEvent<Option<u64>>>,
) -> bool {
    &&& forall|h: u64| removed_handles(ev).contains(h) ==> !w4.has_handle(h)
    &&& forall|h: u64|
        w0.has_handle(h) && !removed_handles(ev).contains(h) ==> w4.has_handle(h)
    &&& forall|h: u64|
        #[trigger] w4.has_handle(h) && h < w0.next_handle ==> {
            &&& w0.has_handle(h)
            &&& w4.entry_of(h).owner == w0.entry_of(h).owner
            &&& w4.entry_of(h).shape == w0.entry_of(h).shape
            &&& w4.entry_of(h).groups == w0.entry_of(h).groups
            &&& w4.entry_of(h).query_type == w0.entry_of(h).query_type
        }
    &&& w4.next_handle >= w0.next_handle
}

/// Across one tick the index only loses the entries named by the drained
/// removal events: every other pre-tick entry survives, keeps its owner and
/// descriptor (only its position is re-pushed), and the handle counter
/// never goes backwards.
proof fn lemma_world_frame(
    w0: EntityCollisionWorld,
    w1: EntityCollisionWorld,
    w2: EntityCollisionWorld,
    w3: EntityCollisionWorld,
    w4: EntityCollisionWorld,
    ev: Seq<DetailedComponentEvent<Option<u64>>>,
    rm: Seq<u64>,
)
    requires
        w0.wf(),
        rm == removed_handles(ev),
        w0.next_handle <= w1.next_handle,
        forall|h: u64|
            h < w0.next_handle ==> #[trigger] w1.has_handle(h) == w0.has_handle(h),
        forall|h: u64|
            h < w0.next_handle && w0.has_handle(h) ==> #[trigger] w1.entry_of(h)
                == w0.entry_of(h),
        forall|g: u64|
            #[trigger] w2.has_handle(g) <==> (w1.has_handle(g) && !rm.contains(g)),
        forall|g: u64|
            !rm.contains(g) && w1.has_handle(g) ==> #[trigger] w2.entry_of(g) == w1.entry_of(
                g,
            ),
        w2.next_handle == w1.next_handle,
        forall|h: u64| #[trigger] w3.has_handle(h) == w2.has_handle(h),
        forall|h: u64|
            #![trigger w3.entry_of(h)]
            w3.has_handle(h) ==> {
                &&& w3.entry_of(h).owner == w2.entry_of(h).owner
                &&& w3.entry_of(h).shape == w2.entry_of(h).shape
                &&& w3.entry_of(h).groups == w2.entry_of(h).groups
                &&& w3.entry_of(h).query_type == w2.entry_of(h).query_type
            },
        w3.next_handle == w2.next_handle,
        forall|h: u64| #[trigger] w4.has_handle(h) == w3.has_handle(h),
        forall|h: u64|
            w3.has_handle(h) ==> #[trigger] w4.entry_of(h) == w3.entry_of(h),
        w4.next_handle == w3.next_handle,
    ensures
        tick_world_frame(w0, w4, ev),
{
    reveal(tick_world_frame);
    assert forall|h: u64| removed_handles(ev).contains(h) implies !w4.has_handle(h) by {
        let q = choose|q: int|
            0 <= q < removed_handles(ev).len() && removed_handles(ev)[q] == h;
        assert(rm[q] == h);
        assert(rm.contains(h));
        assert(!w2.has_handle(h));
    }
    assert forall|h: u64|
        w0.has_handle(h) && !removed_handles(ev).contains(h) implies w4.has_handle(h) by {
        let kk = choose|kk: int|
            0 <= kk < w0.entries@.len() && (#[trigger] w0.entries@[kk]).0 == h;
        assert(w0.entries@[kk].0 < w0.next_handle);
        assert(w1.has_handle(h));
        assert(!rm.contains(h)) by {
            if rm.contains(h) {
                let q = choose|q: int| 0 <= q < rm.len() && rm[q] == h;
                assert(removed_handles(ev)[q] == h);
                assert(removed_handles(ev).contains(h));
            }
        }
        assert(w2.has_handle(h));
    }
    assert forall|h: u64|
        #[trigger] w4.has_handle(h) && h < w0.next_handle implies {
        &&& w0.has_handle(h)
        &&& w4.entry_of(h).owner == w0.entry_of(h).owner
        &&& w4.entry_of(h).shape == w0.entry_of(h).shape
        &&& w4.entry_of(h).groups == w0.entry_of(h).groups
        &&& w4.entry_of(h).query_type == w0.entry_of(h).query_type
    } by {
        assert(w2.has_handle(h));
        assert(w1.has_handle(h));
        assert(w0.has_handle(h));
        assert(!rm.contains(h));
        assert(w1.entry_of(h) == w0.entry_of(h));
        assert(w2.entry_of(h) == w1.entry_of(h));
        assert(w3.entry_of(h).owner == w2.entry_of(h).owner);
        assert(w4.entry_of(h) == w3.entry_of(h));
    }
}

/// Every handle queued for batch removal names an entry of the pre-tick
/// index.
proof fn lemma_removed_vec_bounds(
    w0: EntityCollisionWorld,
    ev: Seq<DetailedComponentEvent<Option<u64>>>,
    rm: Seq<u64>,
)
    requires
        w0.wf(),
        events_valid(synced_map(w0), ev),
        rm == removed_handles(ev),
    ensures
        forall|q: int|
            0 <= q < rm.len() ==> (#[trigger] rm[q]) < w0.next_handle && w0.has_handle(rm[q]),
{
    let m0 = synced_map(w0);
    assert forall|q: int| 0 <= q < rm.len() implies (#[trigger] rm[q]) < w0.next_handle
        && w0.has_handle(rm[q]) by {
        let h = rm[q];
        assert(removed_handles(ev).contains(h)) by {
            assert(removed_handles(ev)[q] == h);
        }
        lemma_removed_handle_source(m0, ev, h);
        let i = choose|i: u32|
            #![trigger m0.contains_key(i)]
            m0.contains_key(i) && m0[i] == Some(h) && has_removed(ev, i);
        assert(owner_slot_present(w0, i));
        let h2 = owner_slot_handle(w0, i);
        assert(w0.has_handle(h2) && w0.entry_of(h2).owner.index == i);
        assert(h2 == h);
        let kk = choose|kk: int|
            0 <= kk < w0.entries@.len() && (#[trigger] w0.entries@[kk]).0 == h;
        assert(w0.entries@[kk].0 < w0.next_handle);
    }
}

/// After registering the drained inserts and batch-removing the queued
/// handles, the storage and the index are in bijection again.
proof fn lemma_reconcile_bijection(
    w0: EntityCollisionWorld,
    w1: EntityCollisionWorld,
    w2: EntityCollisionWorld,
    store1: RemovalFlaggedStorage<Collider, Option<u64>>,
    s2: RemovalFlaggedStorage<Collider, Option<u64>>,
    ev: Seq<DetailedComponentEvent<Option<u64>>>,
    added: Seq<u32>,
    rm: Seq<u64>,
)
    requires
        w0.wf(),
        w1.wf(),
        w2.wf(),
        world_owner_injective(w0),
        events_valid(synced_map(w0), ev),
        apply_events(synced_map(w0), ev) == handle_map(store1),
        forall|id: u32| #[trigger] added.contains(id) <==> inserted_ids(ev).contains(id),
        rm == removed_handles(ev),
        w0.next_handle <= w1.next_handle,
        forall|h: u64|
            h < w0.next_handle ==> #[trigger] w1.has_handle(h) == w0.has_handle(h),
        forall|h: u64|
            h < w0.next_handle && w0.has_handle(h) ==> #[trigger] w1.entry_of(h)
                == w0.entry_of(h),
        forall|h: u64|
            w0.next_handle <= h < w1.next_handle ==> #[trigger] w1.has_handle(h),
        forall|h: u64|
            #![trigger w1.entry_of(h)]
            w0.next_handle <= h < w1.next_handle ==> {
                &&& added.contains(w1.entry_of(h).owner.index)
                &&& s2.occupied(w1.entry_of(h).owner.index)
                &&& s2.value_at(w1.entry_of(h).owner.index)->Some_0.handle == Some(h)
            },
        forall|i: u32| !added.contains(i) ==> s2.value_at(i) == store1.value_at(i),
        forall|i: u32|
            #[trigger] added.contains(i) ==> {
                &&& s2.occupied(i) == store1.occupied(i)
                &&& (s2.occupied(i) ==> {
                    &&& s2.value_at(i)->Some_0.handle is Some
                    &&& w0.next_handle <= s2.value_at(i)->Some_0.handle->0
                    &&& s2.value_at(i)->Some_0.handle->0 < w1.next_handle
                    &&& w1.has_handle(s2.value_at(i)->Some_0.handle->0)
                    &&& w1.entry_of(s2.value_at(i)->Some_0.handle->0).owner.index == i
                })
            },
        forall|g: u64|
            #[trigger] w2.has_handle(g) <==> (w1.has_handle(g) && !rm.contains(g)),
        forall|g: u64|
            !rm.contains(g) && w1.has_handle(g) ==> #[trigger] w2.entry_of(g) == w1.entry_of(
                g,
            ),
    ensures
        storage_world_bijection(s2, w2),
        world_owner_injective(w2),
{
    let m0 = synced_map(w0);
    lemma_removed_vec_bounds(w0, ev, rm);
    assert forall|i: u32| #[trigger] s2.occupied(i) implies {
        &&& s2.value_at(i)->Some_0.handle is Some
        &&& w2.has_handle(s2.value_at(i)->Some_0.handle->0)
        &&& w2.entry_of(s2.value_at(i)->Some_0.handle->0).owner.index == i
    } by {
        if added.contains(i) {
            let h = s2.value_at(i)->Some_0.handle->0;
            assert(w0.next_handle <= h < w1.next_handle);
            assert(w1.has_handle(h));
            assert(!rm.contains(h)) by {
                if rm.contains(h) {
                    let q = choose|q: int| 0 <= q < rm.len() && rm[q] == h;
                    assert(rm[q] < w0.next_handle);
                }
            }
            assert(w2.has_handle(h));
            assert(w2.entry_of(h) == w1.entry_of(h));
        } else {
            assert(s2.value_at(i) == store1.value_at(i));
            assert(store1.occupied(i));
            assert(handle_map(store1).contains_key(i));
            assert(apply_events(m0, ev).contains_key(i));
            assert(!inserted_ids(ev).contains(i));
            lemma_survivor_untouched(m0, ev, i);
            assert(m0.contains_key(i));
            assert(owner_slot_present(w0, i));
            let h = owner_slot_handle(w0, i);
            assert(w0.has_handle(h) && w0.entry_of(h).owner.index == i);
            assert(m0[i] == Some(h));
            assert(handle_map(store1)[i] == Some(h));
            assert(s2.value_at(i)->Some_0.handle == Some(h));
            let kk = choose|kk: int|
                0 <= kk < w0.entries@.len() && (#[trigger] w0.entries@[kk]).0 == h;
            assert(w0.entries@[kk].0 < w0.next_handle);
            assert(h < w0.next_handle);
            assert(w1.has_handle(h));
            assert(w1.entry_of(h) == w0.entry_of(h));
            assert(!removed_handles(ev).contains(h)) by {
                if removed_handles(ev).contains(h) {
                    lemma_removed_handle_source(m0, ev, h);
                    let i2 = choose|i2: u32|
                        #![trigger m0.contains_key(i2)]
                        m0.contains_key(i2) && m0[i2] == Some(h) && has_removed(ev, i2);
                    assert(owner_slot_present(w0, i2));
                    let h3 = owner_slot_handle(w0, i2);
                    assert(w0.has_handle(h3) && w0.entry_of(h3).owner.index == i2);
                    assert(h3 == h);
                    assert(i2 == i);
                    assert(!has_removed(ev, i));
                }
            }
            assert(!rm.contains(h));
            assert(w2.has_handle(h));
            assert(w2.entry_of(h) == w0.entry_of(h));
        }
    }
    assert forall|h: u64| #[trigger] w2.has_handle(h) implies {
        &&& s2.occupied(w2.entry_of(h).owner.index)
        &&& s2.value_at(w2.entry_of(h).owner.index)->Some_0.handle == Some(h)
    } by {
        assert(w1.has_handle(h));
        if h >= w0.next_handle {
            let kk = choose|kk: int|
                0 <= kk < w1.entries@.len() && (#[trigger] w1.entries@[kk]).0 == h;
            assert(w1.entries@[kk].0 < w1.next_handle);
            assert(w0.next_handle <= h < w1.next_handle);
            assert(w2.entry_of(h) == w1.entry_of(h));
        } else {
            assert(w0.has_handle(h));
            assert(!rm.contains(h));
            assert(!removed_handles(ev).contains(h));
            let i = w0.entry_of(h).owner.index;
            lemma_synced_map_entry(w0, i, h);
            lemma_kept_handle(m0, ev, i, h);
            assert(apply_events(m0, ev)[i] == Some(h));
            assert(handle_map(store1).contains_key(i));
            assert(store1.occupied(i));
            assert(store1.value_at(i)->Some_0.handle == Some(h));
            assert(!inserted_ids(ev).contains(i));
            assert(!added.contains(i));
            assert(s2.value_at(i) == store1.value_at(i));
            assert(w1.entry_of(h) == w0.entry_of(h));
            assert(w2.entry_of(h) == w0.entry_of(h));
        }
    }
    assert forall|h1: u64, h2: u64|
        #![trigger w2.entry_of(h1), w2.entry_of(h2)]
        w2.has_handle(h1) && w2.has_handle(h2) && w2.entry_of(h1).owner.index == w2.entry_of(
            h2,
        ).owner.index implies h1 == h2 by {
        let i = w2.entry_of(h1).owner.index;
        assert(s2.value_at(i)->Some_0.handle == Some(h1));
        assert(s2.value_at(i)->Some_0.handle == Some(h2));
    }
}

/// In bijection, reading the index back as a handle map gives exactly the
/// storage's handle map.
proof fn lemma_synced_equals_handle_map(
    s: RemovalFlaggedStorage<Collider, Option<u64>>,
    w: EntityCollisionWorld,
)
    requires
        storage_world_bijection(s, w),
        world_owner_injective(w),
    ensures
        synced_map(w) == handle_map(s),
{
    let msync = synced_map(w);
    assert forall|i: u32| #[trigger] msync.contains_key(i) implies handle_map(s).contains_key(
        i,
    ) && msync[i] == handle_map(s)[i] by {
        assert(owner_slot_present(w, i));
        let h = owner_slot_handle(w, i);
        assert(w.has_handle(h) && w.entry_of(h).owner.index == i);
        assert(s.occupied(i));
        assert(s.value_at(i)->Some_0.handle == Some(h));
    }
    assert forall|i: u32| #[trigger] handle_map(s).contains_key(i) implies msync.contains_key(
        i,
    ) by {
        assert(s.occupied(i));
        let h = s.value_at(i)->Some_0.handle->0;
        assert(w.has_handle(h) && w.entry_of(h).owner.index == i);
        assert(owner_slot_present(w, i));
    }
    assert(msync =~= handle_map(s));
}

impl Default for SyncCollisionWorld {
    fn default() -> (s: Self)
        ensures
            s.collision_reader_id is None,
            s.anomalies == 0,
    {
        SyncCollisionWorld::new()
    }
}

/// Copies out the event list of the most recent contact pass.
fn copy_contact_events(w: &EntityCollisionWorld) -> (out: Vec<ContactEvent>)
    ensures
        out@ == w.events@,
{
    let mut out: Vec<ContactEvent> = Vec::new();
    let n = w.events.len();
    let mut i: usize = 0;
    while i < n
        invariant
            i <= n,
            n == w.events@.len(),
            out@ == w.events@.take(i as int),
        decreases n - i,
    {
        out.push(w.events[i]);
        proof {
            assert(out@ =~= w.events@.take(i + 1));
        }
        i = i + 1;
    }
    proof {
        assert(w.events@.take(n as int) =~= w.events@);
    }
    out
}

/// A sequence without duplicates whose members all lie in a finite set is
/// no longer than that set.
pub proof fn lemma_distinct_seq_le_set(s: Seq<u32>, els: Set<u32>)
    requires
        forall|k1: int, k2: int| 0 <= k1 < k2 < s.len() ==> s[k1] != s[k2],
        forall|k: int| 0 <= k < s.len() ==> els.contains(#[trigger] s[k]),
        els.finite(),
    ensures
        s.len() <= els.len(),
    decreases s.len(),
{
    if s.len() > 0 {
        let x = s.last();
        let rest = s.drop_last();
        vstd::set::axiom_set_remove_len(els, x);
        assert forall|k: int| 0 <= k < rest.len() implies els.remove(x).contains(
            #[trigger] rest[k],
        ) by {
            assert(rest[k] == s[k]);
            assert(s[k] != x);
        }
        lemma_distinct_seq_le_set(rest, els.remove(x));
    }
}

} // verus!
