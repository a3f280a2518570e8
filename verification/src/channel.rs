//! Broadcast log: an append-only event sequence with independent per-reader
//! read cursors. Every registered reader observes every event published after
//! its registration exactly once, in emission order, independent of the other
//! readers' progress. Nothing is ever evicted, so no unread entry is lost.

use vstd::prelude::*;

use crate::ProtocolError;

verus! {

/// A cursor into one `EventChannel`, handed out by `register_reader`.
#[derive(Clone, Copy, Debug)]
pub struct ReaderId {
    pub id: usize,
}

/// Append-only broadcast log with independent per-reader cursors.
pub struct EventChannel<E> {
    pub events: Vec<E>,
    pub cursors: Vec<usize>,
}

impl<E: Copy> EventChannel<E> {
    /// Every cursor points into the event sequence (one past the end at most).
    pub open spec fn wf(&self) -> bool {
        forall|k: int|
            0 <= k < self.cursors@.len() ==> (self.cursors@[k] as int) <= self.events@.len()
    }

    pub open spec fn registered(&self, r: ReaderId) -> bool {
        (r.id as int) < self.cursors@.len()
    }

    pub open spec fn cursor_of(&self, r: ReaderId) -> int {
        self.cursors@[r.id as int] as int
    }

    /// The events a reader with cursor position `cursor` has not yet seen.
    pub open spec fn pending(&self, r: ReaderId) -> Seq<E> {
        self.events@.subrange(self.cursor_of(r), self.events@.len() as int)
    }

    pub fn new() -> (c: Self)
        ensures
            c.wf(),
            c.events@.len() == 0,
            c.cursors@.len() == 0,
    {
        EventChannel { events: Vec::new(), cursors: Vec::new() }
    }

    /// Registers a fresh reader whose cursor starts at the current end of the
    /// log: it will observe exactly the events published from now on.
    pub fn register_reader(&mut self) -> (r: ReaderId)
        requires
            old(self).wf(),
        ensures
            final(self).wf(),
            final(self).events@ == old(self).events@,
            final(self).cursors@ == old(self).cursors@.push(old(self).events@.len() as usize),
            r.id == old(self).cursors@.len(),
            final(self).registered(r),
            final(self).cursor_of(r) == old(self).events@.len(),
    {
        let id = self.cursors.len();
        let end = self.events.len();
        self.cursors.push(end);
        ReaderId { id }
    }

    /// Appends one event; it becomes visible to every cursor from now on.
    pub fn single_write(&mut self, event: E)
        requires
            old(self).wf(),
        ensures
            final(self).wf(),
            final(self).events@ == old(self).events@.push(event),
            final(self).cursors@ == old(self).cursors@,
    {
        self.events.push(event);
    }

    /// Returns every event the reader has not yet observed, in emission
    /// order, and advances the reader's cursor past them; no event is ever
    /// delivered twice to the same cursor and none is skipped. Reading
    /// through a cursor that was never registered fails fast.
    pub fn read(&mut self, r: &ReaderId) -> (out: Result<Vec<E>, ProtocolError>)
        requires
            old(self).wf(),
        ensures
            final(self).wf(),
            final(self).events@ == old(self).events@,
            old(self).registered(*r) ==> {
                &&& out is Ok
                &&& out->Ok_0@ == old(self).pending(*r)
                &&& final(self).cursors@ == old(self).cursors@.update(
                    r.id as int,
                    old(self).events@.len() as usize,
                )
            },
            !old(self).registered(*r) ==> {
                &&& out == Result::<Vec<E>, ProtocolError>::Err(ProtocolError::NoSuchReader)
                &&& final(self).cursors@ == old(self).cursors@
            },
    {
        if r.id >= self.cursors.len() {
            return Err(ProtocolError::NoSuchReader);
        }
        let end = self.events.len();
        let start = self.cursors[r.id];
        let mut out: Vec<E> = Vec::new();
        let mut i = start;
        while i < end
            invariant
                start <= i <= end,
                end == self.events@.len(),
                out@ == self.events@.subrange(start as int, i as int),
            decreases end - i,
        {
            out.push(self.events[i]);
            proof {
                assert(out@ =~= self.events@.subrange(start as int, i + 1 as int));
            }
            i = i + 1;
        }
        self.cursors[r.id] = end;
        Ok(out)
    }
}

/// The positions a single reader's cursor passes through over a series of
/// reads: it starts where the reader registered and each read moves it to the
/// log length at that moment.
pub open spec fn monotone_cuts<E>(events: Seq<E>, cuts: Seq<int>) -> bool {
    &&& cuts.len() >= 1
    &&& forall|j: int| 0 <= j < cuts.len() ==> 0 <= #[trigger] cuts[j] <= events.len()
    &&& forall|j: int, k: int|
        #![trigger cuts[j], cuts[k]]
        0 <= j <= k < cuts.len() ==> cuts[j] <= cuts[k]
}

/// Concatenation of what the successive reads deliver: the read at step `j`
/// delivers the slice between cursor positions `cuts[j]` and `cuts[j + 1]`.
pub open spec fn delivered<E>(events: Seq<E>, cuts: Seq<int>) -> Seq<E>
    decreases cuts.len(),
{
    if cuts.len() <= 1 {
        Seq::empty()
    } else {
        events.subrange(cuts[0], cuts[1]) + delivered(events, cuts.skip(1))
    }
}

/// In a monotone cursor history the first position never exceeds the last.
/// Dropping the first position of a monotone cursor history leaves it
/// monotone.
proof fn lemma_skip_is_monotone<E>(events: Seq<E>, cuts: Seq<int>)
    requires
        monotone_cuts(events, cuts),
        cuts.len() > 1,
    ensures
        monotone_cuts(events, cuts.skip(1)),
{
    let rest = cuts.skip(1);
    assert forall|j: int| 0 <= j < rest.len() implies 0 <= #[trigger] rest[j] <= events.len() by {
        assert(rest[j] == cuts[j + 1]);
    }
    assert forall|j: int, k: int|
        #![trigger rest[j], rest[k]]
        0 <= j <= k < rest.len() implies rest[j] <= rest[k] by {
        assert(rest[j] == cuts[j + 1]);
        assert(rest[k] == cuts[k + 1]);
    }
}

/// Over any schedule of reads, a reader receives exactly the events published
/// between its registration point and its last read, each exactly once, in
/// emission order.
pub proof fn lemma_reader_delivery_exact<E>(events: Seq<E>, cuts: Seq<int>)
    requires
        monotone_cuts(events, cuts),
    ensures
        cuts[0] <= cuts[cuts.len() - 1],
        delivered(events, cuts) == events.subrange(cuts[0], cuts[cuts.len() - 1]),
    decreases cuts.len(),
{
    if cuts.len() <= 1 {
        assert(delivered(events, cuts) =~= events.subrange(cuts[0], cuts[cuts.len() - 1]));
    } else {
        let rest = cuts.skip(1);
        lemma_skip_is_monotone(events, cuts);
        lemma_reader_delivery_exact(events, rest);
        assert(rest[0] == cuts[1]);
        assert(rest[rest.len() - 1] == cuts[cuts.len() - 1]);
        assert(events.subrange(cuts[0], cuts[1]) + events.subrange(
            cuts[1],
            cuts[cuts.len() - 1],
        ) =~= events.subrange(cuts[0], cuts[cuts.len() - 1]));
    }
}

/// Multi-reader independence: two readers each observe, over their own read
/// schedules, exactly the events published after their own registration
/// point, regardless of how the other reader's schedule interleaves; read
/// schedules never affect the log itself, so each reader's delivery depends
/// only on its own cursor history.
pub proof fn lemma_multi_reader_independence<E>(
    events: Seq<E>,
    cuts_a: Seq<int>,
    cuts_b: Seq<int>,
)
    requires
        monotone_cuts(events, cuts_a),
        monotone_cuts(events, cuts_b),
    ensures
        delivered(events, cuts_a) == events.subrange(cuts_a[0], cuts_a[cuts_a.len() - 1]),
        delivered(events, cuts_b) == events.subrange(cuts_b[0], cuts_b[cuts_b.len() - 1]),
{
    lemma_reader_delivery_exact(events, cuts_a);
    lemma_reader_delivery_exact(events, cuts_b);
}

} // verus!
