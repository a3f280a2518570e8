//! Tracked component storage: a sparse slot container that publishes
//! `Inserted` / `Modified` / `Removed` lifecycle events into an owned
//! broadcast log. Removal events carry a projection of the removed value
//! (for colliders, the spatial-index handle that must outlive the component),
//! published before the value leaves the storage.

use vstd::prelude::*;

use crate::ProtocolError;
use crate::channel::{EventChannel, ReaderId};

verus! {

/// Lifecycle notification for one component slot. `Removed` carries the
/// configured projection of the value that was removed.
#[derive(Clone, Copy, Debug)]
pub enum DetailedComponentEvent<T> {
    Inserted(u32),
    Modified(u32),
    Removed(u32, T),
}

impl<T> DetailedComponentEvent<T> {
    /// The slot index the event is about.
    pub open spec fn slot(self) -> u32 {
        match self {
            DetailedComponentEvent::Inserted(i) => i,
            DetailedComponentEvent::Modified(i) => i,
            DetailedComponentEvent::Removed(i, _) => i,
        }
    }
}

/// Projection from a stored component to the payload its `Removed` event
/// carries: identity for plainly copyable components, handle extraction for
/// components that own a resource reference needing cleanup.
pub trait ToEvent<E>: Sized {
    /// What the projection yields.
    spec fn to_event_spec(&self) -> E;

    fn to_event(&self) -> (e: E)
        ensures
            e == self.to_event_spec(),
    ;
}

impl<T: Copy> ToEvent<T> for T {
    open spec fn to_event_spec(&self) -> T {
        *self
    }

    fn to_event(&self) -> (e: T) {
        *self
    }
}

/// Sparse component storage (slot index to value) that flags every insert,
/// in-place replacement and removal on an owned broadcast log.
pub struct RemovalFlaggedStorage<C, E> {
    pub slots: Vec<Option<C>>,
    pub channel: EventChannel<DetailedComponentEvent<E>>,
}

impl<C: ToEvent<E>, E: Copy> RemovalFlaggedStorage<C, E> {
    pub open spec fn wf(&self) -> bool {
        &&& self.channel.wf()
        &&& self.slots@.len() <= u32::MAX as int + 1
    }

    /// The value occupying slot `id`, if any.
    pub open spec fn value_at(&self, id: u32) -> Option<C> {
        if (id as int) < self.slots@.len() {
            self.slots@[id as int]
        } else {
            None
        }
    }

    pub open spec fn occupied(&self, id: u32) -> bool {
        self.value_at(id) is Some
    }

    /// The full lifecycle event log, oldest first.
    pub open spec fn log(&self) -> Seq<DetailedComponentEvent<E>> {
        self.channel.events@
    }

    pub fn new() -> (s: Self)
        ensures
            s.wf(),
            s.log().len() == 0,
            s.channel.cursors@.len() == 0,
            forall|id: u32| !s.occupied(id),
    {
        RemovalFlaggedStorage { slots: Vec::new(), channel: EventChannel::new() }
    }

    /// Occupies slot `id` with `value` and returns the previous occupant.
    /// Publishes `Inserted` when the slot was vacant, `Modified` when the
    /// value was replaced in place.
    pub fn insert(&mut self, id: u32, value: C) -> (prev: Option<C>)
        requires
            old(self).wf(),
        ensures
            final(self).wf(),
            prev == old(self).value_at(id),
            final(self).value_at(id) == Some(value),
            forall|j: u32| j != id ==> final(self).value_at(j) == old(self).value_at(j),
            old(self).occupied(id) ==> final(self).log() == old(self).log().push(
                DetailedComponentEvent::Modified(id),
            ),
            !old(self).occupied(id) ==> final(self).log() == old(self).log().push(
                DetailedComponentEvent::Inserted(id),
            ),
            final(self).channel.cursors@ == old(self).channel.cursors@,
    {
        let idx = id as usize;
        self.grow_to(idx);
        let slot = &mut self.slots[idx];
        let prev = slot.take();
        *slot = Some(value);
        match &prev {
            Some(_) => self.channel.single_write(DetailedComponentEvent::Modified(id)),
            None => self.channel.single_write(DetailedComponentEvent::Inserted(id)),
        }
        prev
    }

    /// Vacates slot `id`, publishing `Removed` with the projection of the
    /// departing value before that value is handed back. Vacating an already
    /// vacant slot fails fast with `NoSuchComponent` and publishes nothing.
    pub fn remove(&mut self, id: u32) -> (out: Result<C, ProtocolError>)
        requires
            old(self).wf(),
        ensures
            final(self).wf(),
            old(self).occupied(id) ==> {
                &&& out matches Ok(v) && Some(v) == old(self).value_at(id)
                &&& final(self).value_at(id) is None
                &&& forall|j: u32| j != id ==> final(self).value_at(j) == old(self).value_at(j)
                &&& final(self).log() == old(self).log().push(
                    DetailedComponentEvent::Removed(
                        id,
                        old(self).value_at(id)->Some_0.to_event_spec(),
                    ),
                )
            },
            !old(self).occupied(id) ==> {
                &&& out == Result::<C, ProtocolError>::Err(ProtocolError::NoSuchComponent)
                &&& final(self).slots@ == old(self).slots@
                &&& final(self).log() == old(self).log()
            },
            final(self).channel.cursors@ == old(self).channel.cursors@,
    {
        let idx = id as usize;
        if idx >= self.slots.len() {
            return Err(ProtocolError::NoSuchComponent);
        }
        let slot = &mut self.slots[idx];
        match slot.take() {
            Some(v) => {
                self.channel.single_write(
                    DetailedComponentEvent::Removed(id, v.to_event()),
                );
                proof {
                    assert(final(self).slots@ =~= old(self).slots@.update(id as int, None));
                }
                Ok(v)
            },
            None => {
                proof {
                    assert(final(self).slots@ =~= old(self).slots@);
                }
                Err(ProtocolError::NoSuchComponent)
            },
        }
    }

    /// Read-only access to slot `id`; publishes nothing. Accessing a vacant
    /// slot fails fast with `NoSuchComponent`.
    pub fn get(&self, id: u32) -> (out: Result<&C, ProtocolError>)
        ensures
            self.occupied(id) ==> (out matches Ok(v) && Some(*v) == self.value_at(id)),
            !self.occupied(id) ==> (out matches Err(e) && e == ProtocolError::NoSuchComponent),
    {
        let idx = id as usize;
        if idx >= self.slots.len() {
            return Err(ProtocolError::NoSuchComponent);
        }
        match &self.slots[idx] {
            Some(v) => Ok(v),
            None => Err(ProtocolError::NoSuchComponent),
        }
    }

    /// Replaces the value in occupied slot `id`, publishing `Modified`: any
    /// mutable access counts as a potential modification. Fails fast on a
    /// vacant slot.
    pub fn replace(&mut self, id: u32, value: C) -> (out: Result<C, ProtocolError>)
        requires
            old(self).wf(),
        ensures
            final(self).wf(),
            old(self).occupied(id) ==> {
                &&& out matches Ok(v) && Some(v) == old(self).value_at(id)
                &&& final(self).value_at(id) == Some(value)
                &&& forall|j: u32| j != id ==> final(self).value_at(j) == old(self).value_at(j)
                &&& final(self).log() == old(self).log().push(
                    DetailedComponentEvent::Modified(id),
                )
            },
            !old(self).occupied(id) ==> {
                &&& out == Result::<C, ProtocolError>::Err(ProtocolError::NoSuchComponent)
                &&& final(self).slots@ == old(self).slots@
                &&& final(self).log() == old(self).log()
            },
            final(self).channel.cursors@ == old(self).channel.cursors@,
    {
        let idx = id as usize;
        if idx >= self.slots.len() {
            return Err(ProtocolError::NoSuchComponent);
        }
        let slot = &mut self.slots[idx];
        match slot.take() {
            Some(v) => {
                *slot = Some(value);
                self.channel.single_write(DetailedComponentEvent::Modified(id));
                Ok(v)
            },
            None => {
                proof {
                    assert(final(self).slots@ =~= old(self).slots@);
                }
                Err(ProtocolError::NoSuchComponent)
            },
        }
    }

    /// Mutable access to the value in occupied slot `id`, publishing
    /// `Modified` up front: any mutable access counts as a potential
    /// modification, even one that ends up writing nothing. Fails fast on a
    /// vacant slot.
    pub fn get_mut(&mut self, id: u32) -> (out: Result<&mut C, ProtocolError>)
        requires
            old(self).wf(),
        ensures
            old(self).occupied(id) ==> (out matches Ok(v) && {
                &&& *v == old(self).value_at(id)->Some_0
                &&& final(self).wf()
                &&& final(self).slots@ == old(self).slots@.update(
                    id as int,
                    Some(*final(v)),
                )
                &&& final(self).log() == old(self).log().push(
                    DetailedComponentEvent::Modified(id),
                )
                &&& final(self).channel.cursors@ == old(self).channel.cursors@
            }),
            !old(self).occupied(id) ==> {
                &&& out is Err
                &&& final(self).wf()
                &&& *final(self) == *old(self)
            },
    {
        let idx = id as usize;
        if idx >= self.slots.len() {
            return Err(ProtocolError::NoSuchComponent);
        }
        if self.slots[idx].is_none() {
            return Err(ProtocolError::NoSuchComponent);
        }
        self.channel.single_write(DetailedComponentEvent::Modified(id));
        let slot = &mut self.slots[idx];
        match slot {
            Some(v) => Ok(v),
            None => {
                proof {
                    assert(false);
                }
                Err(ProtocolError::NoSuchComponent)
            },
        }
    }

    /// The occupied slot indices, in increasing order.
    pub fn ids(&self) -> (out: Vec<u32>)
        requires
            self.wf(),
        ensures
            forall|k: int| 0 <= k < out@.len() ==> self.occupied(#[trigger] out@[k]),
            forall|id: u32| self.occupied(id) ==> out@.contains(id),
            forall|k1: int, k2: int|
                0 <= k1 < k2 < out@.len() ==> out@[k1] < out@[k2],
    {
        let mut out: Vec<u32> = Vec::new();
        let mut i: usize = 0;
        let n = self.slots.len();
        while i < n
            invariant
                i <= n,
                n == self.slots@.len(),
                self.wf(),
                forall|k: int| 0 <= k < out@.len() ==> self.occupied(#[trigger] out@[k]),
                forall|k: int| 0 <= k < out@.len() ==> (out@[k] as int) < i,
                forall|id: u32| (id as int) < i && self.occupied(id) ==> out@.contains(id),
                forall|k1: int, k2: int|
                    0 <= k1 < k2 < out@.len() ==> out@[k1] < out@[k2],
            decreases n - i,
        {
            if self.slots[i].is_some() {
                let ghost prev = out@;
                out.push(i as u32);
                proof {
                    assert forall|id: u32|
                        (id as int) < i + 1 && self.occupied(id) implies out@.contains(id) by {
                        if (id as int) < i as int {
                            assert(prev.contains(id));
                            let k = choose|k: int| 0 <= k < prev.len() && prev[k] == id;
                            assert(out@[k] == id);
                        } else {
                            assert(out@[out@.len() - 1] == i as u32);
                        }
                    }
                }
            }
            i = i + 1;
        }
        out
    }

    /// Registers a reader on the lifecycle log; it will observe exactly the
    /// events published from now on.
    pub fn register_detailed_reader(&mut self) -> (r: ReaderId)
        requires
            old(self).wf(),
        ensures
            final(self).wf(),
            final(self).slots@ == old(self).slots@,
            final(self).log() == old(self).log(),
            final(self).channel.cursors@ == old(self).channel.cursors@.push(
                old(self).log().len() as usize,
            ),
            r.id == old(self).channel.cursors@.len(),
            final(self).channel.registered(r),
            final(self).channel.cursor_of(r) == old(self).log().len(),
    {
        self.channel.register_reader()
    }

    /// Drains the lifecycle events the reader has not yet observed.
    pub fn read_detailed(&mut self, r: &ReaderId) -> (out: Result<
        Vec<DetailedComponentEvent<E>>,
        ProtocolError,
    >)
        requires
            old(self).wf(),
        ensures
            final(self).wf(),
            final(self).slots@ == old(self).slots@,
            final(self).log() == old(self).log(),
            old(self).channel.registered(*r) ==> {
                &&& out is Ok
                &&& out->Ok_0@ == old(self).channel.pending(*r)
                &&& final(self).channel.cursors@ == old(self).channel.cursors@.update(
                    r.id as int,
                    old(self).log().len() as usize,
                )
            },
            !old(self).channel.registered(*r) ==> {
                &&& out is Err
                &&& final(self).channel.cursors@ == old(self).channel.cursors@
            },
    {
        self.channel.read(r)
    }

    /// Publishes an externally produced lifecycle event on the log.
    pub fn flag_detailed(&mut self, event: DetailedComponentEvent<E>)
        requires
            old(self).wf(),
        ensures
            final(self).wf(),
            final(self).slots@ == old(self).slots@,
            final(self).log() == old(self).log().push(event),
            final(self).channel.cursors@ == old(self).channel.cursors@,
    {
        self.channel.single_write(event);
    }

    /// Grows the slot vector so that index `idx` exists, padding with vacant
    /// slots; no slot's value changes.
    fn grow_to(&mut self, idx: usize)
        requires
            old(self).wf(),
            idx <= u32::MAX as usize,
        ensures
            final(self).wf(),
            final(self).slots@.len() > idx,
            final(self).channel == old(self).channel,
            forall|j: u32| final(self).value_at(j) == old(self).value_at(j),
    {
        while self.slots.len() <= idx
            invariant
                self.wf(),
                idx <= u32::MAX as usize,
                self.channel == old(self).channel,
                self.slots@.len() >= old(self).slots@.len(),
                self.slots@.len() <= idx + 1 || self.slots@ == old(self).slots@,
                forall|j: int|
                    0 <= j < old(self).slots@.len() ==> self.slots@[j] == old(self).slots@[j],
                forall|j: int|
                    old(self).slots@.len() <= j < self.slots@.len() ==> self.slots@[j] is None,
            decreases idx + 1 - self.slots@.len(),
        {
            self.slots.push(None);
        }
        proof {
            assert(forall|j: u32| final(self).value_at(j) == old(self).value_at(j)) by {
                assert(forall|j: u32|
                    (j as int) < old(self).slots@.len() ==> final(self).value_at(j)
                        == old(self).value_at(j));
                assert(forall|j: u32|
                    (j as int) >= old(self).slots@.len() ==> final(self).value_at(j) is None
                        && old(self).value_at(j) is None);
            }
        }
    }
}

impl<C: ToEvent<E>, E: Copy> Default for RemovalFlaggedStorage<C, E> {
    fn default() -> (s: Self)
        ensures
            s.wf(),
            s.log().len() == 0,
            s.channel.cursors@.len() == 0,
            forall|id: u32| !s.occupied(id),
    {
        RemovalFlaggedStorage::new()
    }
}

/// How a storage looks after `remove(id)` was driven through it (used to
/// describe entity deletion across many storages at once): slot `id` is
/// vacant, everything else is untouched, and the log carries the `Removed`
/// event exactly when the slot was occupied.
pub open spec fn storage_removed<C: ToEvent<E>, E: Copy>(
    s0: RemovalFlaggedStorage<C, E>,
    s1: RemovalFlaggedStorage<C, E>,
    id: u32,
) -> bool {
    &&& s1.value_at(id) is None
    &&& forall|j: u32| j != id ==> s1.value_at(j) == s0.value_at(j)
    &&& s0.occupied(id) ==> s1.log() == s0.log().push(
        DetailedComponentEvent::Removed(id, s0.value_at(id)->Some_0.to_event_spec()),
    )
    &&& !s0.occupied(id) ==> s1.log() == s0.log() && s1.slots@ == s0.slots@
    &&& s1.channel.cursors@ == s0.channel.cursors@
}

/// How a storage looks after `insert(id, v)` was driven through it.
pub open spec fn storage_inserted<C: ToEvent<E>, E: Copy>(
    s0: RemovalFlaggedStorage<C, E>,
    s1: RemovalFlaggedStorage<C, E>,
    id: u32,
    v: C,
) -> bool {
    &&& s1.value_at(id) == Some(v)
    &&& forall|j: u32| j != id ==> s1.value_at(j) == s0.value_at(j)
    &&& s0.occupied(id) ==> s1.log() == s0.log().push(DetailedComponentEvent::Modified(id))
    &&& !s0.occupied(id) ==> s1.log() == s0.log().push(DetailedComponentEvent::Inserted(id))
    &&& s1.channel.cursors@ == s0.channel.cursors@
}

/// One abstract operation on a single tracked slot.
pub enum SlotOp<C> {
    DoInsert(C),
    DoRemove,
}

/// The slot content after one operation.
pub open spec fn slot_after<C>(state: Option<C>, op: SlotOp<C>) -> Option<C> {
    match op {
        SlotOp::DoInsert(v) => Some(v),
        SlotOp::DoRemove => None,
    }
}

/// A well-ordered operation sequence: inserts hit a vacant slot, removes an
/// occupied one, exactly as the storage's fail-fast contract enforces.
pub open spec fn slot_ops_valid<C>(state: Option<C>, ops: Seq<SlotOp<C>>) -> bool
    decreases ops.len(),
{
    ops.len() == 0 || {
        &&& match ops[0] {
            SlotOp::DoInsert(_) => state is None,
            SlotOp::DoRemove => state is Some,
        }
        &&& slot_ops_valid(slot_after(state, ops[0]), ops.skip(1))
    }
}

/// The slot content after a whole operation sequence.
pub open spec fn slot_state<C>(state: Option<C>, ops: Seq<SlotOp<C>>) -> Option<C>
    decreases ops.len(),
{
    if ops.len() == 0 {
        state
    } else {
        slot_state(slot_after(state, ops[0]), ops.skip(1))
    }
}

/// The lifecycle event one operation publishes, per the storage contract:
/// an insert on a vacant slot publishes `Inserted`; a remove publishes
/// `Removed` carrying the projection of the value the slot held.
pub open spec fn slot_op_event<C: ToEvent<E>, E>(
    id: u32,
    state: Option<C>,
    op: SlotOp<C>,
) -> DetailedComponentEvent<E> {
    match op {
        SlotOp::DoInsert(_) => DetailedComponentEvent::Inserted(id),
        SlotOp::DoRemove => DetailedComponentEvent::Removed(id, state->Some_0.to_event_spec()),
    }
}

/// The events a whole operation sequence publishes, in order.
pub open spec fn slot_events<C: ToEvent<E>, E>(
    id: u32,
    state: Option<C>,
    ops: Seq<SlotOp<C>>,
) -> Seq<DetailedComponentEvent<E>>
    decreases ops.len(),
{
    if ops.len() == 0 {
        Seq::empty()
    } else {
        seq![slot_op_event(id, state, ops[0])] + slot_events(
            id,
            slot_after(state, ops[0]),
            ops.skip(1),
        )
    }
}

pub open spec fn count_inserts<C>(ops: Seq<SlotOp<C>>) -> int
    decreases ops.len(),
{
    if ops.len() == 0 {
        0
    } else {
        (if ops[0] is DoInsert { 1int } else { 0int }) + count_inserts(ops.skip(1))
    }
}

pub open spec fn count_inserted_events<E>(evs: Seq<DetailedComponentEvent<E>>) -> int
    decreases evs.len(),
{
    if evs.len() == 0 {
        0
    } else {
        (if evs[0] is Inserted { 1int } else { 0int }) + count_inserted_events(evs.skip(1))
    }
}

pub open spec fn count_removed_events<E>(evs: Seq<DetailedComponentEvent<E>>) -> int
    decreases evs.len(),
{
    if evs.len() == 0 {
        0
    } else {
        (if evs[0] is Removed { 1int } else { 0int }) + count_removed_events(evs.skip(1))
    }
}

/// Event completeness: a well-ordered sequence of N inserts and M removes on
/// one tracked slot publishes exactly N `Inserted` and M `Removed` events,
/// one per operation in operation order, and each `Removed` event carries the
/// projection of the value the slot held at the time of that removal. A
/// reader registered before the sequence therefore observes exactly these
/// events, since the log delivers every published event exactly once.
pub proof fn lemma_event_completeness<C: ToEvent<E>, E>(
    id: u32,
    state: Option<C>,
    ops: Seq<SlotOp<C>>,
)
    requires
        slot_ops_valid(state, ops),
    ensures
        slot_events::<C, E>(id, state, ops).len() == ops.len(),
        count_inserted_events(slot_events::<C, E>(id, state, ops)) == count_inserts(ops),
        count_removed_events(slot_events::<C, E>(id, state, ops)) == ops.len() - count_inserts(
            ops,
        ),
        forall|k: int|
            0 <= k < ops.len() && ops[k] is DoRemove ==> slot_events::<C, E>(id, state, ops)[k]
                == DetailedComponentEvent::<E>::Removed(
                id,
                slot_state(state, ops.take(k))->Some_0.to_event_spec(),
            ),
    decreases ops.len(),
{
    if ops.len() > 0 {
        let state1 = slot_after(state, ops[0]);
        let rest = ops.skip(1);
        lemma_event_completeness::<C, E>(id, state1, rest);
        let evs = slot_events::<C, E>(id, state, ops);
        let evs1 = slot_events::<C, E>(id, state1, rest);
        assert(evs.skip(1) =~= evs1);
        assert(count_inserts(rest) == count_inserts(ops) - (
        if ops[0] is DoInsert {
            1int
        } else {
            0int
        }));
        assert forall|k: int|
            0 <= k < ops.len() && ops[k] is DoRemove implies evs[k]
            == DetailedComponentEvent::<E>::Removed(
            id,
            slot_state(state, ops.take(k))->Some_0.to_event_spec(),
        ) by {
            if k == 0 {
                assert(ops.take(0) =~= Seq::<SlotOp<C>>::empty());
            } else {
                assert(rest[k - 1] == ops[k]);
                assert(evs[k] == evs1[k - 1]);
                assert(rest.take(k - 1) =~= ops.take(k).skip(1));
                assert(slot_state(state, ops.take(k)) == slot_state(state1, rest.take(k - 1)))
                    by {
                    assert(ops.take(k)[0] == ops[0]);
                    assert(ops.take(k).len() == k);
                }
            }
        }
    }
}

/// Access to the lifecycle log a storage publishes removals into.
pub trait RemovalTracked<E: Copy>: Sized {
    /// The published lifecycle log, oldest first.
    spec fn removal_log(&self) -> Seq<DetailedComponentEvent<E>>;

    fn removal_channel(&self) -> (c: &EventChannel<DetailedComponentEvent<E>>)
        ensures
            c.events@ == self.removal_log(),
    ;

    fn removal_channel_mut(&mut self) -> (c: &mut EventChannel<DetailedComponentEvent<E>>)
        ensures
            c.events@ == old(self).removal_log(),
            final(self).removal_log() == final(c).events@,
    ;
}

impl<C: ToEvent<E>, E: Copy> RemovalTracked<E> for RemovalFlaggedStorage<C, E> {
    open spec fn removal_log(&self) -> Seq<DetailedComponentEvent<E>> {
        self.log()
    }

    fn removal_channel(&self) -> (c: &EventChannel<DetailedComponentEvent<E>>) {
        &self.channel
    }

    fn removal_channel_mut(&mut self) -> (c: &mut EventChannel<DetailedComponentEvent<E>>) {
        &mut self.channel
    }
}

/// A storage whose lifecycle log can be read from and published to: the
/// interface the synchronizer consumes.
pub trait RemovalBroadcaster<E: Copy>: Sized {
    /// The published lifecycle log, oldest first.
    spec fn detailed_log(&self) -> Seq<DetailedComponentEvent<E>>;

    /// The registered readers' cursor positions.
    spec fn detailed_cursors(&self) -> Seq<usize>;

    /// Every cursor points into the log.
    spec fn detailed_wf(&self) -> bool;

    fn detailed_channel(&self) -> (c: &EventChannel<DetailedComponentEvent<E>>)
        ensures
            c.events@ == self.detailed_log(),
            c.cursors@ == self.detailed_cursors(),
    ;

    fn detailed_channel_mut(&mut self) -> (c: &mut EventChannel<DetailedComponentEvent<E>>)
        ensures
            c.events@ == old(self).detailed_log(),
            c.cursors@ == old(self).detailed_cursors(),
            final(self).detailed_log() == final(c).events@,
            final(self).detailed_cursors() == final(c).cursors@,
    ;

    fn register_detailed_reader(&mut self) -> (r: ReaderId)
        requires
            old(self).detailed_wf(),
        ensures
            final(self).detailed_wf(),
            final(self).detailed_log() == old(self).detailed_log(),
            final(self).detailed_cursors() == old(self).detailed_cursors().push(
                old(self).detailed_log().len() as usize,
            ),
            r.id == old(self).detailed_cursors().len(),
    ;

    fn flag_detailed(&mut self, event: DetailedComponentEvent<E>)
        requires
            old(self).detailed_wf(),
        ensures
            final(self).detailed_wf(),
            final(self).detailed_log() == old(self).detailed_log().push(event),
            final(self).detailed_cursors() == old(self).detailed_cursors(),
    ;
}

impl<C: ToEvent<E>, E: Copy> RemovalBroadcaster<E> for RemovalFlaggedStorage<C, E> {
    open spec fn detailed_log(&self) -> Seq<DetailedComponentEvent<E>> {
        self.log()
    }

    open spec fn detailed_cursors(&self) -> Seq<usize> {
        self.channel.cursors@
    }

    open spec fn detailed_wf(&self) -> bool {
        self.channel.wf()
    }

    fn detailed_channel(&self) -> (c: &EventChannel<DetailedComponentEvent<E>>) {
        &self.channel
    }

    fn detailed_channel_mut(&mut self) -> (c: &mut EventChannel<DetailedComponentEvent<E>>) {
        &mut self.channel
    }

    fn register_detailed_reader(&mut self) -> (r: ReaderId) {
        self.channel.register_reader()
    }

    fn flag_detailed(&mut self, event: DetailedComponentEvent<E>) {
        self.channel.single_write(event);
    }
}

} // verus!
