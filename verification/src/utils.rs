//! Small helpers.

use crate::fixed::Scalar;
use vstd::prelude::*;

verus! {

/// `n` held between `min` and `max`; `min` wins where the bounds cross.
pub open spec fn spec_clamp(n: int, min: int, max: int) -> int {
    if n < min {
        min
    } else if n > max {
        max
    } else {
        n
    }
}

/// Holds `n` between `min` and `max`.
pub fn clamp(n: Scalar, min: Scalar, max: Scalar) -> (r: Scalar)
    ensures
        r == spec_clamp(n as int, min as int, max as int),
        min <= max ==> min <= r <= max,
{
    if n < min {
        return min;
    }
    if n > max {
        return max;
    }
    n
}

} // verus!
