//! Spatial index over ball shapes at integer (milli-unit) coordinates: adds
//! and batch-removes entries by opaque handle, takes per-tick positions, and
//! on each update emits one `Started` / `Stopped` event per contact pair
//! whose overlap state changed since the previous update.

use vstd::prelude::*;

use crate::Entity;
use crate::ProtocolError;
use crate::falldown::{CollisionGroups, QueryKind, Shape, Transform, groups_interact};

verus! {

/// Coordinates are clamped into this range on entry so that squared
/// distances fit the machine arithmetic that compares them.
pub const POSITION_LIMIT: i64 = 2_147_483_648;

/// A transition of one contact pair, named by the two entry handles.
#[derive(PartialEq, Eq, Structural, Clone, Copy, Debug)]
pub enum ContactEvent {
    Started(u64, u64),
    Stopped(u64, u64),
}

/// A contact transition lifted to the entities owning the two entries.
pub type EntityContactEvent = (Entity, Entity, ContactEvent);

/// One entry of the index: the owning entity, its immutable collision
/// descriptor, and its last pushed position.
#[derive(Clone, Copy, Debug)]
pub struct CollisionEntry {
    pub owner: Entity,
    pub shape: Shape,
    pub groups: CollisionGroups,
    pub query_type: QueryKind,
    pub position: Transform,
}

pub open spec fn clamp_coord_spec(v: i64) -> i64 {
    if v > POSITION_LIMIT {
        POSITION_LIMIT
    } else if v < -POSITION_LIMIT {
        (-POSITION_LIMIT) as i64
    } else {
        v
    }
}

pub open spec fn clamp_transform_spec(t: Transform) -> Transform {
    Transform {
        x: clamp_coord_spec(t.x),
        y: clamp_coord_spec(t.y),
        z: clamp_coord_spec(t.z),
        rot: t.rot,
    }
}

pub open spec fn coord_clamped(v: i64) -> bool {
    -POSITION_LIMIT <= v <= POSITION_LIMIT
}

pub open spec fn transform_clamped(t: Transform) -> bool {
    coord_clamped(t.x) && coord_clamped(t.y) && coord_clamped(t.z)
}

fn clamp_coord(v: i64) -> (r: i64)
    ensures
        r == clamp_coord_spec(v),
{
    if v > POSITION_LIMIT {
        POSITION_LIMIT
    } else if v < -POSITION_LIMIT {
        -POSITION_LIMIT
    } else {
        v
    }
}

fn clamp_transform(t: Transform) -> (r: Transform)
    ensures
        r == clamp_transform_spec(t),
{
    Transform { x: clamp_coord(t.x), y: clamp_coord(t.y), z: clamp_coord(t.z), rot: t.rot }
}

/// Two balls touch when the squared distance between their centers is at
/// most the square of the sum of their radii.
pub open spec fn balls_touch(p: Transform, s: Shape, q: Transform, t: Shape) -> bool {
    let dx = p.x - q.x;
    let dy = p.y - q.y;
    let dz = p.z - q.z;
    let r = s.radius() + t.radius();
    dx * dx + dy * dy + dz * dz <= r * r
}

/// Two entries are in contact when their groups accept each other, both ask
/// for contact generation, and their balls touch.
pub open spec fn entries_overlap(a: CollisionEntry, b: CollisionEntry) -> bool {
    &&& groups_interact(a.groups, b.groups)
    &&& a.query_type is Contacts
    &&& b.query_type is Contacts
    &&& balls_touch(a.position, a.shape, b.position, b.shape)
}

pub proof fn lemma_overlap_symmetric(a: CollisionEntry, b: CollisionEntry)
    ensures
        entries_overlap(a, b) == entries_overlap(b, a),
{
    lemma_square_of_negation(a.position.x - b.position.x);
    lemma_square_of_negation(a.position.y - b.position.y);
    lemma_square_of_negation(a.position.z - b.position.z);
}

proof fn lemma_square_of_negation(d: int)
    ensures
        d * d == (-d) * (-d),
{
    assert(d * d == (-d) * (-d)) by (nonlinear_arith);
}

/// Witness form of `scan_done`: slots `i1 < j1` hold an overlapping pair
/// whose canonically ordered handles are `(a, b)`, and the all-pairs scan
/// standing at row `i`, column `j` has already visited `(i1, j1)`.
spec fn scan_done_at(
    entries: Seq<(u64, CollisionEntry)>,
    i: int,
    j: int,
    a: u64,
    b: u64,
    i1: int,
    j1: int,
) -> bool {
    &&& 0 <= i1 < j1 < entries.len()
    &&& (i1 < i || (i1 == i && j1 < j))
    &&& entries_overlap(entries[i1].1, entries[j1].1)
    &&& a == (if entries[i1].0 < entries[j1].0 {
        entries[i1].0
    } else {
        entries[j1].0
    })
    &&& b == (if entries[i1].0 < entries[j1].0 {
        entries[j1].0
    } else {
        entries[i1].0
    })
}

/// The all-pairs scan standing at row `i`, column `j` has already visited
/// an overlapping pair with canonical handles `(a, b)`.
spec fn scan_done(entries: Seq<(u64, CollisionEntry)>, i: int, j: int, a: u64, b: u64) -> bool {
    exists|i1: int, j1: int| #[trigger] scan_done_at(entries, i, j, a, b, i1, j1)
}

proof fn lemma_square_bound(x: int, m: int)
    requires
        -m <= x <= m,
        0 <= m,
    ensures
        0 <= x * x <= m * m,
{
    assert(0 <= x * x <= m * m) by (nonlinear_arith)
        requires
            -m <= x <= m,
            0 <= m,
    ;
}

/// Decides `entries_overlap` for two entries with clamped positions.
fn check_overlap(a: &CollisionEntry, b: &CollisionEntry) -> (r: bool)
    requires
        transform_clamped(a.position),
        transform_clamped(b.position),
    ensures
        r == entries_overlap(*a, *b),
{
    let groups_ok = (a.groups.membership & b.groups.whitelist) != 0 && (b.groups.membership
        & a.groups.whitelist) != 0;
    let kind_a = match a.query_type {
        QueryKind::Contacts => true,
        QueryKind::Proximity => false,
    };
    let kind_b = match b.query_type {
        QueryKind::Contacts => true,
        QueryKind::Proximity => false,
    };
    if !groups_ok || !kind_a || !kind_b {
        return false;
    }
    let dx = (a.position.x as i128) - (b.position.x as i128);
    let dy = (a.position.y as i128) - (b.position.y as i128);
    let dz = (a.position.z as i128) - (b.position.z as i128);
    proof {
        lemma_square_bound(dx as int, 4_294_967_296);
        lemma_square_bound(dy as int, 4_294_967_296);
        lemma_square_bound(dz as int, 4_294_967_296);
    }
    let d2 = dx * dx + dy * dy + dz * dz;
    let r1 = match a.shape {
        Shape::Ball(r) => r,
    };
    let r2 = match b.shape {
        Shape::Ball(r) => r,
    };
    let rs = (r1 as i128) + (r2 as i128);
    proof {
        lemma_square_bound(rs as int, 8_589_934_592);
    }
    d2 <= rs * rs
}

/// Linear membership test for a canonical contact pair.
fn contains_pair(v: &Vec<(u64, u64)>, p: (u64, u64)) -> (r: bool)
    ensures
        r == v@.contains(p),
{
    let n = v.len();
    let mut i: usize = 0;
    while i < n
        invariant
            i <= n,
            n == v@.len(),
            forall|k: int| 0 <= k < i ==> v@[k] != p,
        decreases n - i,
    {
        let q = v[i];
        if q.0 == p.0 && q.1 == p.1 {
            proof {
                assert(v@[i as int] == p);
            }
            return true;
        }
        i = i + 1;
    }
    proof {
        if v@.contains(p) {
            let k = choose|k: int| 0 <= k < v@.len() && v@[k] == p;
            assert(v@[k] != p);
        }
    }
    false
}

/// The spatial index. Handles are never reused; the set of entries, the
/// current contact set, and the events of the most recent update are all
/// observable through the spec functions below.
pub struct EntityCollisionWorld {
    pub entries: Vec<(u64, CollisionEntry)>,
    pub next_handle: u64,
    pub contacts: Vec<(u64, u64)>,
    pub events: Vec<ContactEvent>,
}

impl EntityCollisionWorld {
    pub open spec fn wf(&self) -> bool {
        &&& forall|k1: int, k2: int|
            0 <= k1 < k2 < self.entries@.len() ==> self.entries@[k1].0 != self.entries@[k2].0
        &&& forall|k: int|
            0 <= k < self.entries@.len() ==> (#[trigger] self.entries@[k]).0
                < self.next_handle
        &&& forall|k: int|
            0 <= k < self.entries@.len() ==> transform_clamped(
                (#[trigger] self.entries@[k]).1.position,
            )
        &&& forall|k: int|
            0 <= k < self.contacts@.len() ==> (#[trigger] self.contacts@[k]).0
                < self.contacts@[k].1
        &&& forall|k1: int, k2: int|
            0 <= k1 < k2 < self.contacts@.len() ==> self.contacts@[k1] != self.contacts@[k2]
    }

    /// Whether some entry carries handle `h`.
    pub open spec fn has_handle(&self, h: u64) -> bool {
        exists|k: int| 0 <= k < self.entries@.len() && (#[trigger] self.entries@[k]).0 == h
    }

    /// The entry carrying handle `h` (meaningful only when `has_handle`).
    pub open spec fn entry_of(&self, h: u64) -> CollisionEntry {
        let k = choose|k: int|
            0 <= k < self.entries@.len() && (#[trigger] self.entries@[k]).0 == h;
        self.entries@[k].1
    }

    /// A canonical contact pair that is currently overlapping.
    pub open spec fn overlapping_pair(&self, a: u64, b: u64) -> bool {
        &&& a < b
        &&& self.has_handle(a)
        &&& self.has_handle(b)
        &&& entries_overlap(self.entry_of(a), self.entry_of(b))
    }

    /// With distinct keys, the entry at slot `k` is what handle lookup
    /// yields for its key.
    pub proof fn lemma_key_lookup(&self, k: int)
        requires
            self.wf(),
            0 <= k < self.entries@.len(),
        ensures
            self.has_handle(self.entries@[k].0),
            self.entry_of(self.entries@[k].0) == self.entries@[k].1,
    {
        let h = self.entries@[k].0;
        assert(self.has_handle(h));
        let k2 = choose|k2: int|
            0 <= k2 < self.entries@.len() && (#[trigger] self.entries@[k2]).0 == h;
        if k2 != k {
            if k2 < k {
                assert(self.entries@[k2].0 != self.entries@[k].0);
            } else {
                assert(self.entries@[k].0 != self.entries@[k2].0);
            }
        }
    }

    pub fn new() -> (w: Self)
        ensures
            w.wf(),
            w.entries@.len() == 0,
            w.contacts@.len() == 0,
            w.events@.len() == 0,
            w.next_handle == 0,
            forall|h: u64| !w.has_handle(h),
    {
        EntityCollisionWorld {
            entries: Vec::new(),
            next_handle: 0,
            contacts: Vec::new(),
            events: Vec::new(),
        }
    }

    /// Registers a new entry and returns its fresh handle. The position is
    /// clamped into the representable coordinate range.
    pub fn add(
        &mut self,
        position: Transform,
        shape: Shape,
        groups: CollisionGroups,
        query_type: QueryKind,
        owner: Entity,
    ) -> (h: u64)
        requires
            old(self).wf(),
            old(self).next_handle < u64::MAX,
        ensures
            final(self).wf(),
            h == old(self).next_handle,
            !old(self).has_handle(h),
            final(self).next_handle == h + 1,
            final(self).entries@ == old(self).entries@.push(
                (
                    h,
                    CollisionEntry {
                        owner,
                        shape,
                        groups,
                        query_type,
                        position: clamp_transform_spec(position),
                    },
                ),
            ),
            forall|g: u64|
                final(self).has_handle(g) <==> (old(self).has_handle(g) || g == h),
            forall|g: u64|
                old(self).has_handle(g) ==> final(self).entry_of(g) == old(self).entry_of(g),
            final(self).entry_of(h) == (CollisionEntry {
                owner,
                shape,
                groups,
                query_type,
                position: clamp_transform_spec(position),
            }),
            final(self).contacts@ == old(self).contacts@,
            final(self).events@ == old(self).events@,
    {
        let h = self.next_handle;
        let entry = CollisionEntry {
            owner,
            shape,
            groups,
            query_type,
            position: clamp_transform(position),
        };
        self.entries.push((h, entry));
        self.next_handle = h + 1;
        proof {
            let n = final(self).entries@.len() as int;
            assert(final(self).entries@[n - 1].0 == h);
            if old(self).has_handle(h) {
                let k = choose|k: int|
                    0 <= k < old(self).entries@.len() && (#[trigger] old(self).entries@[k]).0
                        == h;
                assert(old(self).entries@[k].0 < h);
            }
            assert forall|g: u64| old(self).has_handle(g) implies final(self).entry_of(g)
                == old(self).entry_of(g) by {
                let k = choose|k: int|
                    0 <= k < old(self).entries@.len() && (#[trigger] old(self).entries@[k]).0
                        == g;
                assert(final(self).entries@[k].0 == g);
                assert(final(self).has_handle(g));
                final(self).lemma_key_lookup(k);
                old(self).lemma_key_lookup(k);
            }
            final(self).lemma_key_lookup(n - 1);
            assert forall|g: u64|
                old(self).has_handle(g) || g == h implies final(self).has_handle(g) by {
                if g == h {
                    assert(final(self).entries@[n - 1].0 == g);
                } else {
                    let k = choose|k: int|
                        0 <= k < old(self).entries@.len() && (#[trigger] old(self).entries@[
                            k
                        ]).0 == g;
                    assert(final(self).entries@[k].0 == g);
                }
            }
            assert forall|g: u64|
                final(self).has_handle(g) implies (old(self).has_handle(g) || g == h) by {
                let k = choose|k: int|
                    0 <= k < final(self).entries@.len() && (#[trigger] final(self).entries@[
                        k
                    ]).0 == g;
                if k < n - 1 {
                    assert(old(self).entries@[k].0 == g);
                }
            }
        }
        h
    }

    /// Removes the entry carrying handle `h`, if present.
    fn remove_one(&mut self, h: u64)
        requires
            old(self).wf(),
        ensures
            final(self).wf(),
            final(self).next_handle == old(self).next_handle,
            final(self).contacts@ == old(self).contacts@,
            final(self).events@ == old(self).events@,
            forall|g: u64|
                final(self).has_handle(g) <==> (old(self).has_handle(g) && g != h),
            forall|g: u64|
                g != h && old(self).has_handle(g) ==> final(self).entry_of(g)
                    == old(self).entry_of(g),
    {
        let n = self.entries.len();
        let mut i: usize = 0;
        while i < n
            invariant
                i <= n,
                n == self.entries@.len(),
                self == old(self),
                self.wf(),
                forall|k: int| 0 <= k < i ==> (#[trigger] self.entries@[k]).0 != h,
            decreases n - i,
        {
            if self.entries[i].0 == h {
                let ghost pre = self.entries@;
                self.entries.swap_remove(i);
                proof {
                    let m = pre.len() as int;
                    assert(self.entries@ =~= pre.update(i as int, pre[m - 1]).take(m - 1));
                    assert forall|g: u64|
                        final(self).has_handle(g) implies (old(self).has_handle(g) && g != h)
                        by {
                        let k = choose|k: int|
                            0 <= k < self.entries@.len() && (#[trigger] self.entries@[k]).0
                                == g;
                        if k == i as int {
                            assert(old(self).entries@[m - 1].0 == g);
                            if g == h {
                                assert(old(self).entries@[i as int].0 == h);
                                assert((i as int) < m - 1 ==> old(self).entries@[i as int].0
                                    != old(self).entries@[m - 1].0);
                            }
                        } else {
                            assert(old(self).entries@[k].0 == g);
                            if g == h {
                                assert(false);
                            }
                        }
                    }
                    assert forall|g: u64|
                        old(self).has_handle(g) && g != h implies final(self).has_handle(g)
                            && final(self).entry_of(g) == old(self).entry_of(g) by {
                        let k = choose|k: int|
                            0 <= k < pre.len() && (#[trigger] pre[k]).0 == g;
                        old(self).lemma_key_lookup(k);
                        if k == m - 1 {
                            if i as int == m - 1 {
                                assert(pre[i as int].0 == h);
                                assert(false);
                            } else {
                                assert(self.entries@[i as int] == pre[k]);
                                assert(self.entries@[i as int].0 == g);
                                final(self).lemma_key_lookup(i as int);
                            }
                        } else if k == i as int {
                            assert(pre[k].0 == h);
                            assert(false);
                        } else {
                            assert(self.entries@[k] == pre[k]);
                            final(self).lemma_key_lookup(k);
                        }
                    }
                }
                return ;
            }
            i = i + 1;
        }
        proof {
            assert forall|g: u64|
                final(self).has_handle(g) implies (old(self).has_handle(g) && g != h) by {
                if g == h {
                    let k = choose|k: int|
                        0 <= k < self.entries@.len() && (#[trigger] self.entries@[k]).0 == g;
                    assert(self.entries@[k].0 != h);
                }
            }
        }
    }

    /// Batch-removes every entry whose handle is listed; handles that name
    /// no entry are ignored.
    pub fn remove(&mut self, handles: &Vec<u64>)
        requires
            old(self).wf(),
        ensures
            final(self).wf(),
            final(self).next_handle == old(self).next_handle,
            final(self).contacts@ == old(self).contacts@,
            final(self).events@ == old(self).events@,
            forall|g: u64|
                final(self).has_handle(g) <==> (old(self).has_handle(g) && !handles@.contains(
                    g,
                )),
            forall|g: u64|
                !handles@.contains(g) && old(self).has_handle(g) ==> final(self).entry_of(g)
                    == old(self).entry_of(g),
    {
        let n = handles.len();
        let mut i: usize = 0;
        while i < n
            invariant
                i <= n,
                n == handles@.len(),
                self.wf(),
                self.next_handle == old(self).next_handle,
                self.contacts@ == old(self).contacts@,
                self.events@ == old(self).events@,
                forall|g: u64|
                    self.has_handle(g) <==> (old(self).has_handle(g) && !handles@.take(
                        i as int,
                    ).contains(g)),
                forall|g: u64|
                    !handles@.take(i as int).contains(g) && old(self).has_handle(g) ==> self
                        .entry_of(g) == old(self).entry_of(g),
            decreases n - i,
        {
            let h = handles[i];
            let ghost mid = *self;
            self.remove_one(h);
            proof {
                assert(handles@.take(i + 1).drop_last() =~= handles@.take(i as int));
                assert(handles@.take(i + 1).last() == h);
                assert forall|g: u64|
                    handles@.take(i + 1).contains(g) implies (g == h || handles@.take(
                        i as int,
                    ).contains(g)) by {
                    let k = choose|k: int|
                        0 <= k < handles@.take(i + 1).len() && #[trigger] handles@.take(
                            i + 1,
                        )[k] == g;
                    if k < i as int {
                        assert(handles@.take(i as int)[k] == g);
                    }
                }
                assert forall|g: u64|
                    (g == h || handles@.take(i as int).contains(g)) implies handles@.take(
                        i + 1,
                    ).contains(g) by {
                    if g == h {
                        assert(handles@.take(i + 1)[i as int] == g);
                    } else {
                        let k = choose|k: int|
                            0 <= k < handles@.take(i as int).len() && #[trigger] handles@.take(
                                i as int,
                            )[k] == g;
                        assert(handles@.take(i + 1)[k] == g);
                    }
                }
            }
            i = i + 1;
        }
        proof {
            assert(handles@.take(n as int) =~= handles@);
        }
    }

    /// Pushes a new position (clamped) into the entry carrying `h`; fails
    /// fast when no entry does.
    pub fn set_position(&mut self, h: u64, position: Transform) -> (out: Result<
        (),
        ProtocolError,
    >)
        requires
            old(self).wf(),
        ensures
            final(self).wf(),
            final(self).next_handle == old(self).next_handle,
            final(self).contacts@ == old(self).contacts@,
            final(self).events@ == old(self).events@,
            forall|g: u64| final(self).has_handle(g) == old(self).has_handle(g),
            old(self).has_handle(h) ==> {
                &&& out is Ok
                &&& final(self).entry_of(h) == (CollisionEntry {
                    position: clamp_transform_spec(position),
                    ..old(self).entry_of(h)
                })
            },
            !old(self).has_handle(h) ==> {
                &&& out == Result::<(), ProtocolError>::Err(ProtocolError::NoSuchHandle)
                &&& final(self).entries@ == old(self).entries@
            },
            forall|g: u64|
                g != h && old(self).has_handle(g) ==> final(self).entry_of(g)
                    == old(self).entry_of(g),
    {
        let n = self.entries.len();
        let mut i: usize = 0;
        while i < n
            invariant
                i <= n,
                n == self.entries@.len(),
                self == old(self),
                self.wf(),
                forall|k: int| 0 <= k < i ==> (#[trigger] self.entries@[k]).0 != h,
            decreases n - i,
        {
            if self.entries[i].0 == h {
                let entry = self.entries[i].1;
                let updated = CollisionEntry { position: clamp_transform(position), ..entry };
                self.entries[i] = (h, updated);
                proof {
                    assert(final(self).entries@ =~= old(self).entries@.update(
                        i as int,
                        (h, updated),
                    ));
                    old(self).lemma_key_lookup(i as int);
                    final(self).lemma_key_lookup(i as int);
                    assert forall|g: u64|
                        final(self).has_handle(g) == old(self).has_handle(g) by {
                        if final(self).has_handle(g) {
                            let k = choose|k: int|
                                0 <= k < self.entries@.len()
                                    && (#[trigger] self.entries@[k]).0 == g;
                            assert(old(self).entries@[k].0 == g);
                        }
                        if old(self).has_handle(g) {
                            let k = choose|k: int|
                                0 <= k < old(self).entries@.len()
                                    && (#[trigger] old(self).entries@[k]).0 == g;
                            assert(final(self).entries@[k].0 == g);
                        }
                    }
                    assert forall|g: u64|
                        g != h && old(self).has_handle(g) implies final(self).entry_of(g)
                            == old(self).entry_of(g) by {
                        let k = choose|k: int|
                            0 <= k < old(self).entries@.len()
                                && (#[trigger] old(self).entries@[k]).0 == g;
                        old(self).lemma_key_lookup(k);
                        assert(final(self).entries@[k].0 == g);
                        final(self).lemma_key_lookup(k);
                    }
                }
                return Ok(());
            }
            i = i + 1;
        }
        Err(ProtocolError::NoSuchHandle)
    }

    /// The entity owning the entry carrying `h`, if any entry does.
    pub fn owner_of(&self, h: u64) -> (out: Option<Entity>)
        requires
            self.wf(),
        ensures
            self.has_handle(h) ==> out == Some(self.entry_of(h).owner),
            !self.has_handle(h) ==> out is None,
    {
        let n = self.entries.len();
        let mut i: usize = 0;
        while i < n
            invariant
                i <= n,
                n == self.entries@.len(),
                self.wf(),
                forall|k: int| 0 <= k < i ==> (#[trigger] self.entries@[k]).0 != h,
            decreases n - i,
        {
            if self.entries[i].0 == h {
                proof {
                    self.lemma_key_lookup(i as int);
                }
                return Some(self.entries[i].1.owner);
            }
            i = i + 1;
        }
        None
    }

    /// Two distinct slots never carry the same handle.
    proof fn lemma_key_injective(&self, k1: int, k2: int)
        requires
            self.wf(),
            0 <= k1 < self.entries@.len(),
            0 <= k2 < self.entries@.len(),
            self.entries@[k1].0 == self.entries@[k2].0,
        ensures
            k1 == k2,
    {
        if k1 < k2 {
            assert(self.entries@[k1].0 != self.entries@[k2].0);
        } else if k2 < k1 {
            assert(self.entries@[k2].0 != self.entries@[k1].0);
        }
    }

    /// The contact-detection pass: recomputes the set of overlapping
    /// canonical pairs and replaces the event list with exactly one
    /// `Started` event per pair that is overlapping now but was not in
    /// contact before, and one `Stopped` event per pair that was in contact
    /// before and is not overlapping now. Entries and handles are untouched.
    pub fn update(&mut self)
        requires
            old(self).wf(),
        ensures
            final(self).wf(),
            final(self).entries@ == old(self).entries@,
            final(self).next_handle == old(self).next_handle,
            forall|a: u64, b: u64|
                #[trigger] final(self).contacts@.contains((a, b))
                    <==> final(self).overlapping_pair(a, b),
            forall|a: u64, b: u64|
                #[trigger] final(self).events@.contains(ContactEvent::Started(a, b)) <==> (
                final(self).overlapping_pair(a, b) && !old(self).contacts@.contains((a, b))),
            forall|a: u64, b: u64|
                #[trigger] final(self).events@.contains(ContactEvent::Stopped(a, b))
                    <==> (old(self).contacts@.contains((a, b))
                    && !final(self).overlapping_pair(a, b)),
            forall|k1: int, k2: int|
                0 <= k1 < k2 < final(self).events@.len()
                    ==> final(self).events@[k1] != final(self).events@[k2],
    {
        let n = self.entries.len();
        let mut fresh: Vec<(u64, u64)> = Vec::new();
        let mut i: usize = 0;
        while i < n
            invariant
                i <= n,
                n == self.entries@.len(),
                self == old(self),
                self.wf(),
                forall|a: u64, b: u64|
                    #[trigger] fresh@.contains((a, b)) <==> scan_done(
                        self.entries@,
                        i as int,
                        i + 1,
                        a,
                        b,
                    ),
                forall|k: int| 0 <= k < fresh@.len() ==> (#[trigger] fresh@[k]).0 < fresh@[k].1,
                forall|k1: int, k2: int|
                    0 <= k1 < k2 < fresh@.len() ==> fresh@[k1] != fresh@[k2],
            decreases n - i,
        {
            let mut j: usize = i + 1;
            while j < n
                invariant
                    i < n,
                    i + 1 <= j <= n,
                    n == self.entries@.len(),
                    self == old(self),
                    self.wf(),
                    forall|a: u64, b: u64|
                        #[trigger] fresh@.contains((a, b)) <==> scan_done(
                            self.entries@,
                            i as int,
                            j as int,
                            a,
                            b,
                        ),
                    forall|k: int|
                        0 <= k < fresh@.len() ==> (#[trigger] fresh@[k]).0 < fresh@[k].1,
                    forall|k1: int, k2: int|
                        0 <= k1 < k2 < fresh@.len() ==> fresh@[k1] != fresh@[k2],
                decreases n - j,
            {
                let e1 = self.entries[i];
                let e2 = self.entries[j];
                let overlap = check_overlap(&e1.1, &e2.1);
                if overlap {
                    let lo = if e1.0 < e2.0 {
                        e1.0
                    } else {
                        e2.0
                    };
                    let hi = if e1.0 < e2.0 {
                        e2.0
                    } else {
                        e1.0
                    };
                    proof {
                        self.lemma_key_injective(i as int, i as int);
                        if e1.0 == e2.0 {
                            self.lemma_key_injective(i as int, j as int);
                        }
                        assert(lo < hi);
                        if fresh@.contains((lo, hi)) {
                            let (i1, j1) = choose|i1: int, j1: int|
                                #[trigger] scan_done_at(self.entries@, i as int, j as int, lo, hi, i1, j1);
                            if self.entries@[i1].0 == e1.0 {
                                self.lemma_key_injective(i1, i as int);
                                self.lemma_key_injective(j1, j as int);
                            } else {
                                self.lemma_key_injective(i1, j as int);
                                self.lemma_key_injective(j1, i as int);
                            }
                            assert(false);
                        }
                    }
                    let ghost prev = fresh@;
                    fresh.push((lo, hi));
                    proof {
                        assert forall|a: u64, b: u64|
                            #[trigger] fresh@.contains((a, b)) implies scan_done(
                            self.entries@,
                            i as int,
                            j + 1,
                            a,
                            b,
                        ) by {
                            let k = choose|k: int|
                                0 <= k < fresh@.len() && #[trigger] fresh@[k] == (a, b);
                            if k < prev.len() {
                                assert(prev.contains((a, b)));
                                let (i1, j1) = choose|i1: int, j1: int|
                                    #[trigger] scan_done_at(
                                        self.entries@,
                                        i as int,
                                        j as int,
                                        a,
                                        b,
                                        i1,
                                        j1,
                                    );
                                assert(scan_done_at(
                                    self.entries@,
                                    i as int,
                                    j + 1,
                                    a,
                                    b,
                                    i1,
                                    j1,
                                ));
                            } else {
                                assert(scan_done_at(
                                    self.entries@,
                                    i as int,
                                    j + 1,
                                    a,
                                    b,
                                    i as int,
                                    j as int,
                                ));
                            }
                        }
                        assert forall|a: u64, b: u64|
                            scan_done(self.entries@, i as int, j + 1, a, b) implies #[trigger]
                        fresh@.contains((a, b)) by {
                            let (i1, j1) = choose|i1: int, j1: int|
                                #[trigger] scan_done_at(self.entries@, i as int, j + 1, a, b, i1, j1);
                            if i1 < i as int || (i1 == i as int && j1 < j as int) {
                                assert(scan_done_at(
                                    self.entries@,
                                    i as int,
                                    j as int,
                                    a,
                                    b,
                                    i1,
                                    j1,
                                ));
                                assert(prev.contains((a, b)));
                                let k = choose|k: int|
                                    0 <= k < prev.len() && #[trigger] prev[k] == (a, b);
                                assert(fresh@[k] == (a, b));
                            } else {
                                assert(i1 == i as int && j1 == j as int);
                                assert(fresh@[fresh@.len() - 1] == (a, b));
                            }
                        }
                    }
                } else {
                    proof {
                        assert forall|a: u64, b: u64|
                            scan_done(self.entries@, i as int, j + 1, a, b) implies #[trigger]
                        fresh@.contains((a, b)) by {
                            let (i1, j1) = choose|i1: int, j1: int|
                                #[trigger] scan_done_at(self.entries@, i as int, j + 1, a, b, i1, j1);
                            assert(scan_done_at(
                                self.entries@,
                                i as int,
                                j as int,
                                a,
                                b,
                                i1,
                                j1,
                            ));
                        }
                        assert forall|a: u64, b: u64|
                            #[trigger] fresh@.contains((a, b)) implies scan_done(
                            self.entries@,
                            i as int,
                            j + 1,
                            a,
                            b,
                        ) by {
                            let (i1, j1) = choose|i1: int, j1: int|
                                #[trigger] scan_done_at(self.entries@, i as int, j as int, a, b, i1, j1);
                            assert(scan_done_at(
                                self.entries@,
                                i as int,
                                j + 1,
                                a,
                                b,
                                i1,
                                j1,
                            ));
                        }
                    }
                }
                j = j + 1;
            }
            proof {
                assert forall|a: u64, b: u64|
                    scan_done(self.entries@, i + 1, i + 2, a, b) implies #[trigger]
                fresh@.contains((a, b)) by {
                    let (i1, j1) = choose|i1: int, j1: int|
                        #[trigger] scan_done_at(self.entries@, i + 1, i + 2, a, b, i1, j1);
                    assert(scan_done_at(self.entries@, i as int, n as int, a, b, i1, j1));
                }
                assert forall|a: u64, b: u64|
                    #[trigger] fresh@.contains((a, b)) implies scan_done(
                    self.entries@,
                    i + 1,
                    i + 2,
                    a,
                    b,
                ) by {
                    let (i1, j1) = choose|i1: int, j1: int|
                        #[trigger] scan_done_at(self.entries@, i as int, n as int, a, b, i1, j1);
                    assert(scan_done_at(self.entries@, i + 1, i + 2, a, b, i1, j1));
                }
            }
            i = i + 1;
        }
        proof {
            assert forall|a: u64, b: u64|
                #[trigger] fresh@.contains((a, b)) implies self.overlapping_pair(a, b) by {
                let (i1, j1) = choose|i1: int, j1: int|
                    #[trigger] scan_done_at(self.entries@, n as int, n + 1, a, b, i1, j1);
                self.lemma_key_lookup(i1);
                self.lemma_key_lookup(j1);
                lemma_overlap_symmetric(self.entries@[i1].1, self.entries@[j1].1);
            }
            assert forall|a: u64, b: u64|
                self.overlapping_pair(a, b) implies #[trigger] fresh@.contains((a, b)) by {
                let ka = choose|k: int|
                    0 <= k < self.entries@.len() && (#[trigger] self.entries@[k]).0 == a;
                let kb = choose|k: int|
                    0 <= k < self.entries@.len() && (#[trigger] self.entries@[k]).0 == b;
                self.lemma_key_lookup(ka);
                self.lemma_key_lookup(kb);
                lemma_overlap_symmetric(self.entries@[ka].1, self.entries@[kb].1);
                assert(ka != kb);
                if ka < kb {
                    assert(scan_done_at(self.entries@, n as int, n + 1, a, b, ka, kb));
                } else {
                    assert(scan_done_at(self.entries@, n as int, n + 1, a, b, kb, ka));
                }
            }
        }
        let ghost overlap_now = fresh@;
        let mut evs: Vec<ContactEvent> = Vec::new();
        let m = fresh.len();
        let mut k: usize = 0;
        while k < m
            invariant
                k <= m,
                m == fresh@.len(),
                self == old(self),
                self.wf(),
                forall|k1: int| 0 <= k1 < fresh@.len() ==> (#[trigger] fresh@[k1]).0 < fresh@[k1].1,
                forall|k1: int, k2: int|
                    0 <= k1 < k2 < fresh@.len() ==> fresh@[k1] != fresh@[k2],
                forall|a: u64, b: u64|
                    #[trigger] evs@.contains(ContactEvent::Started(a, b)) <==> (fresh@.take(
                        k as int,
                    ).contains((a, b)) && !self.contacts@.contains((a, b))),
                forall|k1: int| 0 <= k1 < evs@.len() ==> (#[trigger] evs@[k1]) is Started,
                forall|k1: int, k2: int| 0 <= k1 < k2 < evs@.len() ==> evs@[k1] != evs@[k2],
            decreases m - k,
        {
            let p = fresh[k];
            if !contains_pair(&self.contacts, p) {
                proof {
                    if evs@.contains(ContactEvent::Started(p.0, p.1)) {
                        let k1 = choose|k1: int|
                            0 <= k1 < fresh@.take(k as int).len() && #[trigger] fresh@.take(
                                k as int,
                            )[k1] == (p.0, p.1);
                        assert(fresh@[k1] == fresh@[k as int]);
                        assert(false);
                    }
                }
                let ghost epre = evs@;
                evs.push(ContactEvent::Started(p.0, p.1));
                proof {
                    assert forall|a: u64, b: u64|
                        #[trigger] evs@.contains(ContactEvent::Started(a, b)) implies (
                    epre.contains(ContactEvent::Started(a, b)) || (a, b) == p) by {
                        let k1 = choose|k1: int|
                            0 <= k1 < evs@.len() && #[trigger] evs@[k1]
                                == ContactEvent::Started(a, b);
                        if k1 < epre.len() {
                            assert(epre[k1] == ContactEvent::Started(a, b));
                        }
                    }
                    assert forall|a: u64, b: u64|
                        epre.contains(ContactEvent::Started(a, b)) implies #[trigger]
                    evs@.contains(ContactEvent::Started(a, b)) by {
                        let k1 = choose|k1: int|
                            0 <= k1 < epre.len() && #[trigger] epre[k1]
                                == ContactEvent::Started(a, b);
                        assert(evs@[k1] == ContactEvent::Started(a, b));
                    }
                    assert(evs@[evs@.len() - 1] == ContactEvent::Started(p.0, p.1));
                    assert(evs@.contains(ContactEvent::Started(p.0, p.1)));
                }
            }
            proof {
                assert(fresh@.take(k + 1).drop_last() =~= fresh@.take(k as int));
                assert(fresh@.take(k + 1).last() == fresh@[k as int]);
                assert forall|a: u64, b: u64|
                    fresh@.take(k + 1).contains((a, b)) implies ((a, b) == fresh@[k as int]
                    || fresh@.take(k as int).contains((a, b))) by {
                    let k1 = choose|k1: int|
                        0 <= k1 < fresh@.take(k + 1).len() && #[trigger] fresh@.take(k + 1)[k1]
                            == (a, b);
                    if k1 < k as int {
                        assert(fresh@.take(k as int)[k1] == (a, b));
                    }
                }
                assert forall|a: u64, b: u64|
                    ((a, b) == fresh@[k as int] || fresh@.take(k as int).contains((a, b)))
                    implies fresh@.take(k + 1).contains((a, b)) by {
                    if (a, b) == fresh@[k as int] {
                        assert(fresh@.take(k + 1)[k as int] == (a, b));
                    } else {
                        let k1 = choose|k1: int|
                            0 <= k1 < fresh@.take(k as int).len() && #[trigger] fresh@.take(
                                k as int,
                            )[k1] == (a, b);
                        assert(fresh@.take(k + 1)[k1] == (a, b));
                    }
                }
            }
            k = k + 1;
        }
        proof {
            assert(fresh@.take(m as int) =~= fresh@);
        }
        let c = self.contacts.len();
        let mut k2: usize = 0;
        while k2 < c
            invariant
                k2 <= c,
                c == self.contacts@.len(),
                self == old(self),
                self.wf(),
                overlap_now == fresh@,
                forall|a: u64, b: u64|
                    #[trigger] evs@.contains(ContactEvent::Started(a, b)) <==> (fresh@.contains(
                        (a, b),
                    ) && !self.contacts@.contains((a, b))),
                forall|a: u64, b: u64|
                    #[trigger] evs@.contains(ContactEvent::Stopped(a, b)) <==> (self
                        .contacts@.take(k2 as int).contains((a, b)) && !fresh@.contains(
                        (a, b),
                    )),
                forall|k1: int, k3: int| 0 <= k1 < k3 < evs@.len() ==> evs@[k1] != evs@[k3],
            decreases c - k2,
        {
            let p = self.contacts[k2];
            if !contains_pair(&fresh, p) {
                proof {
                    if evs@.contains(ContactEvent::Stopped(p.0, p.1)) {
                        let k1 = choose|k1: int|
                            0 <= k1 < self.contacts@.take(k2 as int).len()
                                && #[trigger] self.contacts@.take(k2 as int)[k1] == (p.0, p.1);
                        assert(self.contacts@[k1] == self.contacts@[k2 as int]);
                        assert(false);
                    }
                }
                let ghost epre = evs@;
                evs.push(ContactEvent::Stopped(p.0, p.1));
                proof {
                    assert forall|a: u64, b: u64|
                        #[trigger] evs@.contains(ContactEvent::Stopped(a, b)) implies (
                    epre.contains(ContactEvent::Stopped(a, b)) || (a, b) == p) by {
                        let k1 = choose|k1: int|
                            0 <= k1 < evs@.len() && #[trigger] evs@[k1]
                                == ContactEvent::Stopped(a, b);
                        if k1 < epre.len() {
                            assert(epre[k1] == ContactEvent::Stopped(a, b));
                        }
                    }
                    assert forall|a: u64, b: u64|
                        epre.contains(ContactEvent::Stopped(a, b)) implies #[trigger]
                    evs@.contains(ContactEvent::Stopped(a, b)) by {
                        let k1 = choose|k1: int|
                            0 <= k1 < epre.len() && #[trigger] epre[k1]
                                == ContactEvent::Stopped(a, b);
                        assert(evs@[k1] == ContactEvent::Stopped(a, b));
                    }
                    assert forall|a: u64, b: u64|
                        #[trigger] evs@.contains(ContactEvent::Started(a, b)) implies
                    epre.contains(ContactEvent::Started(a, b)) by {
                        let k1 = choose|k1: int|
                            0 <= k1 < evs@.len() && #[trigger] evs@[k1]
                                == ContactEvent::Started(a, b);
                        assert(k1 < epre.len());
                        assert(epre[k1] == ContactEvent::Started(a, b));
                    }
                    assert forall|a: u64, b: u64|
                        epre.contains(ContactEvent::Started(a, b)) implies #[trigger]
                    evs@.contains(ContactEvent::Started(a, b)) by {
                        let k1 = choose|k1: int|
                            0 <= k1 < epre.len() && #[trigger] epre[k1]
                                == ContactEvent::Started(a, b);
                        assert(evs@[k1] == ContactEvent::Started(a, b));
                    }
                    assert(evs@[evs@.len() - 1] == ContactEvent::Stopped(p.0, p.1));
                    assert(evs@.contains(ContactEvent::Stopped(p.0, p.1)));
                }
            }
            proof {
                assert forall|a: u64, b: u64|
                    self.contacts@.take(k2 + 1).contains((a, b)) implies ((a, b) == self
                    .contacts@[k2 as int] || self.contacts@.take(k2 as int).contains(
                    (a, b),
                )) by {
                    let k1 = choose|k1: int|
                        0 <= k1 < self.contacts@.take(k2 + 1).len()
                            && #[trigger] self.contacts@.take(k2 + 1)[k1] == (a, b);
                    if k1 < k2 as int {
                        assert(self.contacts@.take(k2 as int)[k1] == (a, b));
                    }
                }
                assert forall|a: u64, b: u64|
                    ((a, b) == self.contacts@[k2 as int] || self.contacts@.take(
                        k2 as int,
                    ).contains((a, b))) implies self.contacts@.take(k2 + 1).contains(
                    (a, b),
                ) by {
                    if (a, b) == self.contacts@[k2 as int] {
                        assert(self.contacts@.take(k2 + 1)[k2 as int] == (a, b));
                    } else {
                        let k1 = choose|k1: int|
                            0 <= k1 < self.contacts@.take(k2 as int).len()
                                && #[trigger] self.contacts@.take(k2 as int)[k1] == (a, b);
                        assert(self.contacts@.take(k2 + 1)[k1] == (a, b));
                    }
                }
            }
            k2 = k2 + 1;
        }
        proof {
            assert(self.contacts@.take(c as int) =~= self.contacts@);
        }
        self.contacts = fresh;
        self.events = evs;
    }

    /// The events emitted by the most recent update, one per transitioning
    /// pair.
    pub fn contact_events(&self) -> (evs: &Vec<ContactEvent>)
        ensures
            evs@ == self.events@,
    {
        &self.events
    }
}

} // verus!
