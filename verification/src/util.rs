//! Integer clamping, the exact core of the pixel-component scaling helper.

use vstd::prelude::*;

verus! {

/// Clamp `input` to the closed interval `[min, max]`, testing against `max`
/// first. Whenever `min <= max` the result is guaranteed to lie in the
/// interval; callers that hand in a crossed interval still get the exact
/// value this definition picks.
pub fn clamp(input: i32, min: i32, max: i32) -> (r: i32)
    ensures
        r == (if input > max {
            max
        } else if input < min {
            min
        } else {
            input
        }),
        min <= max ==> min <= r <= max,
{
    if input > max {
        max
    } else if input < min {
        min
    } else {
        input
    }
}

} // verus!
