//! The mapping between normalized values and positions on the slider track.
//!
//! Positions are integers in whatever unit the caller chooses (a fraction of
//! a pixel, say); the fill, the drag and the ticks share this one mapping.
use vstd::prelude::*;
use crate::normalized::{SCALE, is_normalized};

verus! {

/// Granular drags move the value at this percentage of the pointer's speed.
pub const GRANULAR_DRAG_PERCENT: u32 = 10;

/// Where the track lies and how dense the display is.
#[derive(Debug, Clone, Copy, PartialEq, Eq, Structural)]
pub struct TrackGeometry {
    /// Position of the left end of the track.
    pub left: i32,
    /// Width of the track.
    pub width: u32,
    /// Display scale in percent (`100` for an unscaled display).
    pub scale_percent: u16,
}

/// The value under position `x`, clamped to the ends of the track.
pub open spec fn x_to_value_spec(g: TrackGeometry, x: int) -> int {
    if x <= g.left {
        0
    } else if x >= g.left + g.width {
        SCALE as int
    } else {
        ((x - g.left) * SCALE) / (g.width as int)
    }
}

/// The position of value `t` on the track.
pub open spec fn value_to_x_spec(g: TrackGeometry, t: int) -> int {
    g.left + (g.width * t) / (SCALE as int)
}

/// A pointer offset slowed down for a granular drag and scaled for the display,
/// rounded toward zero.
pub open spec fn granular_offset_spec(dx: int, scale_percent: int) -> int {
    let m = if dx >= 0 { dx } else { -dx };
    let slowed = (m * GRANULAR_DRAG_PERCENT * scale_percent) / 10_000;
    if dx >= 0 { slowed } else { -slowed }
}

/// `(x - left) * SCALE / width` lies in `[0, SCALE)` when `x` is on the track.
proof fn lemma_on_track(off: int, width: int)
    requires
        0 < off < width,
    ensures
        0 <= (off * SCALE) / width < SCALE,
{
    let s = SCALE as int;
    assert(0 <= (off * s) / width < s) by (nonlinear_arith)
        requires 0 < off < width, s > 0;
}

/// Maps a position to the value under it.
pub fn x_to_value(g: TrackGeometry, x: i64) -> (r: u32)
    ensures
        r as int == x_to_value_spec(g, x as int),
        is_normalized(r as int),
{
    let left = g.left as i64;
    if x <= left {
        0
    } else if x >= left + g.width as i64 {
        SCALE
    } else {
        let off = (x - left) as u64;
        proof {
            lemma_on_track(off as int, g.width as int);
        }
        assert(off * (SCALE as u64) < 0xffff_ffffu64 * 1_000_000) by (nonlinear_arith)
            requires off < 0xffff_ffffu64;
        ((off * SCALE as u64) / g.width as u64) as u32
    }
}

/// Maps a value to its position.
pub fn value_to_x(g: TrackGeometry, t: u32) -> (r: i64)
    requires
        is_normalized(t as int),
    ensures
        r as int == value_to_x_spec(g, t as int),
        g.left <= r <= g.left + g.width,
{
    assert(g.width as u64 * t as u64 <= 0xffff_ffffu64 * 1_000_000) by (nonlinear_arith)
        requires g.width <= 0xffff_ffffu64, t <= 1_000_000;
    let part = (g.width as u64 * t as u64) / SCALE as u64;
    assert(part <= g.width) by (nonlinear_arith)
        requires part == (g.width * t) / 1_000_000int, t <= 1_000_000;
    g.left as i64 + part as i64
}

/// Slows a pointer offset down for a granular drag.
pub fn granular_offset(dx: i64, scale_percent: u16) -> (r: i64)
    requires
        -0x1_0000_0000 <= dx <= 0x1_0000_0000,
    ensures
        r as int == granular_offset_spec(dx as int, scale_percent as int),
        -0x1_0000_0000 * 66 <= r <= 0x1_0000_0000 * 66,
{
    let m: u64 = if dx >= 0 { dx as u64 } else { (-dx) as u64 };
    assert(m * 10 * (scale_percent as u64) <= 0x1_0000_0000u64 * 10 * 0xffff) by (nonlinear_arith)
        requires m <= 0x1_0000_0000u64, scale_percent <= 0xffff;
    let slowed = (m * GRANULAR_DRAG_PERCENT as u64 * scale_percent as u64) / 10_000;
    assert(slowed <= 0x1_0000_0000u64 * 66) by (nonlinear_arith)
        requires slowed == (m * 10 * (scale_percent as u64)) / 10_000, m <= 0x1_0000_0000u64, scale_percent <= 0xffff;
    if dx >= 0 { slowed as i64 } else { -(slowed as i64) }
}

} // verus!
