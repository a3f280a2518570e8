//! Trusted interface to the hierarchical bit set the synchronizer uses as
//! its per-tick scratch set of newly inserted collider slots. Contents are
//! tracked through the uninterpreted `bitset_elems`.

use vstd::prelude::*;

use hibitset::BitSet;
use hibitset::DrainableBitSet;

verus! {

#[verifier::external_type_specification]
#[verifier::external_body]
pub struct ExBitSet(BitSet);

/// The set of indices the bit set currently holds.
pub uninterp spec fn bitset_elems(b: BitSet) -> Set<u32>;

/// Exclusive upper bound on the indices handed to the bit set: the
/// four-layer hierarchy (on a 64-bit target) stores and iterates exactly
/// the indices below two to the twenty-fourth. The boundary index itself is
/// accepted by `add` but never yielded by the drain iterator, so it stays
/// outside every wrapper's admitted range.
pub const BITSET_INDEX_LIMIT: u32 = 16_777_216;

/// Relies on hibitset::BitSet::new: creates an empty set.
#[verifier::external_body]
pub(crate) fn bitset_new() -> (b: BitSet)
    ensures
        bitset_elems(b) == Set::<u32>::empty(),
{
    BitSet::new()
}

/// Relies on hibitset::BitSet::add: inserts `id` and reports whether it was
/// already present. Indices at or above the hierarchy's range are excluded:
/// higher ones panic, and the boundary one would be stored yet missed by
/// the drain iterator.
#[verifier::external_body]
pub(crate) fn bitset_add(b: &mut BitSet, id: u32) -> (was_in: bool)
    requires
        id < BITSET_INDEX_LIMIT,
    ensures
        bitset_elems(*final(b)) == bitset_elems(*old(b)).insert(id),
        was_in == bitset_elems(*old(b)).contains(id),
{
    b.add(id)
}

/// Relies on hibitset::BitSet::clear: wipes the set.
#[verifier::external_body]
pub(crate) fn bitset_clear(b: &mut BitSet)
    ensures
        bitset_elems(*final(b)) == Set::<u32>::empty(),
{
    b.clear()
}

/// Relies on hibitset::DrainableBitSet::drain: yields each contained index
/// exactly once, removing it as it goes, so collecting the iterator returns
/// the former contents without duplicates and leaves the set empty.
#[verifier::external_body]
pub(crate) fn bitset_drain(b: &mut BitSet) -> (out: Vec<u32>)
    ensures
        bitset_elems(*final(b)) == Set::<u32>::empty(),
        forall|id: u32| #[trigger] out@.contains(id) <==> bitset_elems(*old(b)).contains(id),
        forall|k1: int, k2: int| 0 <= k1 < k2 < out@.len() ==> out@[k1] != out@[k2],
{
    b.drain().collect()
}

} // verus!
