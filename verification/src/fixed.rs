//! The fixed-point unit shared by coordinates, scores and times.
use vstd::prelude::*;

verus! {

/// How many units make one: one pixel, a score of one, one second.
pub const UNITS: i64 = 10_000;

/// Largest magnitude of a coordinate on which areas are computed: one
/// hundred million pixels.
pub const COORD_LIMIT: i64 = 1_000_000_000_000;

/// The constant added to the union of two boxes before dividing, in square
/// units: a ten-millionth of a square pixel.
pub const IOU_EPSILON: i64 = 10;

/// `value / unit` with the fraction cut off, towards zero.
pub open spec fn truncated(value: int, unit: int) -> int {
    if value >= 0 {
        value / unit
    } else {
        -((-value) / unit)
    }
}

/// `numerator / divisor` with the fraction cut off, towards zero, whatever
/// the sign of the divisor.
pub open spec fn cut(numerator: int, divisor: int) -> int {
    if divisor > 0 {
        truncated(numerator, divisor)
    } else {
        truncated(-numerator, -divisor)
    }
}

} // verus!
