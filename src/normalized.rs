//! Fixed-point normalized values and the mapping between them and track pixels.
use vstd::prelude::*;

verus! {

/// The number of units that stand for the normalized value `1.0`.
pub const SCALE: u32 = 1_000_000;

/// A normalized value lies in `[0, SCALE]`.
pub open spec fn is_normalized(v: int) -> bool {
    0 <= v <= SCALE
}

/// The smaller of two integers.
pub open spec fn min_int(a: int, b: int) -> int {
    if a <= b { a } else { b }
}

/// The absolute value of an integer.
pub open spec fn abs_int(a: int) -> int {
    if a >= 0 { a } else { -a }
}

/// Clamps an integer into `[0, SCALE]`.
pub open spec fn clamp_normalized(v: int) -> int {
    if v <= 0 { 0 } else if v >= SCALE { SCALE as int } else { v }
}

} // verus!
