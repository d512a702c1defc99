//! The step scheduler: how many sub-steps a frame is divided into for a
//! stable sub-step, and how long such a sub-step is.

use crate::fixed::{clamp, div_raw, mul_raw, Fixed, SCALE};
use vstd::prelude::*;

verus! {

/// The stability constant: a sub-step may last this many times
/// `radius^2 / kn`.
pub const STABILITY: i64 = 7500;

/// The count of sub-steps is a multiple of this.
pub const SUBSTEP_MULTIPLE: u64 = 10;

/// How many sub-steps are run for each frame that is drawn.
pub const BATCH: usize = 1000;

/// The time between two frames: one over the frame rate.
pub open spec fn frame_time(fps: int) -> int {
    div_raw(SCALE as int, fps)
}

/// The longest stable sub-step by the heuristic: `7500 * radius^2 / kn`.
pub open spec fn stable_time(kn: int, radius: int) -> int {
    div_raw(mul_raw(STABILITY * SCALE, mul_raw(radius, radius)), kn)
}

/// The whole part of a scalar that is not negative, and zero otherwise.
pub open spec fn whole_part(x: int) -> int {
    if x <= 0 {
        0
    } else {
        x / (SCALE as int)
    }
}

/// The count of sub-steps in a frame:
/// `floor(frame_time / stable_time) * 10`, saturated to 64 bits.
pub open spec fn substep_count(fps: int, kn: int, radius: int) -> int {
    let count = whole_part(div_raw(frame_time(fps), stable_time(kn, radius))) * SUBSTEP_MULTIPLE;
    if count > u64::MAX {
        u64::MAX as int
    } else {
        count
    }
}

/// The length of a sub-step: the frame time over the count of sub-steps.
pub open spec fn substep_time(fps: int, count: int) -> int {
    div_raw(frame_time(fps), clamp(count * SCALE))
}

/// The count of sub-steps in a frame for the frame rate `fps`, the
/// stiffness `kn` and the particle radius `radius`.
pub fn substeps(fps: Fixed, kn: Fixed, radius: Fixed) -> (count: u64)
    ensures
        count == substep_count(fps@, kn@, radius@),
{
    let frame = Fixed::one().div(fps);
    let stable = Fixed::from_int(STABILITY).mul(radius.mul(radius)).div(kn);
    let ratio = frame.div(stable);
    if !ratio.gt(Fixed::zero()) {
        return 0;
    }
    let whole: u64 = ratio.floor() as u64;
    match whole.checked_mul(SUBSTEP_MULTIPLE) {
        Some(count) => count,
        None => u64::MAX,
    }
}

/// The length of a sub-step where a frame at the rate `fps` is divided into
/// `count` sub-steps.
pub fn timestep(fps: Fixed, count: u64) -> (dt: Fixed)
    ensures
        dt@ == substep_time(fps@, count as int),
{
    let frame = Fixed::one().div(fps);
    let divisor = if count > i64::MAX as u64 {
        Fixed::from_raw(i128::MAX)
    } else {
        Fixed::from_int(count as i64)
    };
    frame.div(divisor)
}

} // verus!
