//! Small helpers over the randomness source.

use vstd::prelude::*;

use crate::rng::random_below;

verus! {

/// An unbounded value clamped into the coordinate range.
pub open spec fn sat_i64(v: int) -> i64 {
    if v > i64::MAX {
        i64::MAX
    } else if v < i64::MIN {
        i64::MIN
    } else {
        v as i64
    }
}

/// Addition on coordinates, pinned at the ends of the representable range.
pub open spec fn sat_add_i64(a: i64, b: i64) -> i64 {
    if a + b > i64::MAX {
        i64::MAX
    } else if a + b < i64::MIN {
        i64::MIN
    } else {
        (a + b) as i64
    }
}

pub fn sat_add64(a: i64, b: i64) -> (r: i64)
    ensures
        r == sat_add_i64(a, b),
{
    let s = (a as i128) + (b as i128);
    if s > i64::MAX as i128 {
        i64::MAX
    } else if s < i64::MIN as i128 {
        i64::MIN
    } else {
        s as i64
    }
}

/// Returns `value` or its negation, chosen by a coin flip.
pub fn plus_or_minus(value: i64) -> (r: i64)
    requires
        value != i64::MIN,
    ensures
        r == value || r == -value,
{
    if random_below(2) == 1 {
        value
    } else {
        -value
    }
}

} // verus!
