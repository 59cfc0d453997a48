//! Wrap-around angle handling for interpolation.
//!
//! A recorded orientation wraps at the ends of an interval (degrees wrap
//! from the maximum back to the minimum), so interpolating two nearby
//! angles that sit on opposite sides of the seam must first move one of
//! them across it. The rule is exact interval arithmetic; it is stated
//! and proved here over integers, and the interpolation path applies the
//! same rule to its scalar type.

use vstd::prelude::*;

verus! {

/// The magnitude bound under which the wrapping arithmetic cannot
/// overflow.
pub const WRAP_BOUND: i64 = 0x10000000000;

/// Map two angles of the wrap interval `min..=max` so that the difference
/// of the results is the wrapping difference of the inputs: whichever
/// input sits more than half the interval below the other is moved up by
/// the interval's width.
pub fn unwrap(a: i64, b: i64, min: i64, max: i64) -> (r: (i64, i64))
    requires
        min < max,
        -WRAP_BOUND <= a <= WRAP_BOUND,
        -WRAP_BOUND <= b <= WRAP_BOUND,
        -WRAP_BOUND <= min <= WRAP_BOUND,
        -WRAP_BOUND <= max <= WRAP_BOUND,
    ensures
        ({
            let offset = max - min;
            if a - b < min {
                r.0 == a + offset && r.1 == b
            } else if b - a < min {
                r.0 == a && r.1 == b + offset
            } else {
                r.0 == a && r.1 == b
            }
        }),
{
    let offset = max - min;
    if a - b < min {
        (a + offset, b)
    } else if b - a < min {
        (a, b + offset)
    } else {
        (a, b)
    }
}

/// Fold an interpolated angle back into the wrap interval `min..=max`:
/// a value past either end is moved one interval width inward.
pub fn wrap(num: i64, min: i64, max: i64) -> (r: i64)
    requires
        min < max,
        -WRAP_BOUND <= num <= WRAP_BOUND,
        -WRAP_BOUND <= min <= WRAP_BOUND,
        -WRAP_BOUND <= max <= WRAP_BOUND,
    ensures
        ({
            let offset = max - min;
            if num > max {
                r == num - offset
            } else if num < min {
                r == num + offset
            } else {
                r == num
            }
        }),
{
    let offset = max - min;
    if num > max {
        num - offset
    } else if num < min {
        num + offset
    } else {
        num
    }
}

} // verus!
