use vstd::prelude::*;

verus! {

/// Clamps `x` into `[min, max]`; when the bounds cross, `max` wins,
/// as with taking the maximum with `min` and then the minimum with `max`.
pub fn clamp(x: i32, min: i32, max: i32) -> (r: i32)
    ensures
        r == ({
            let lo = if x > min {
                x
            } else {
                min
            };
            if lo < max {
                lo
            } else {
                max
            }
        }),
{
    let lo = if x > min {
        x
    } else {
        min
    };
    if lo < max {
        lo
    } else {
        max
    }
}

} // verus!

