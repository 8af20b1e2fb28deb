//! Where the filled part of the slider bar starts and how wide it is.
use vstd::prelude::*;
use crate::normalized::{SCALE, is_normalized, min_int, abs_int};

verus! {

/// Widths under this many units are drawn as nothing: such slivers are noise.
pub const SLIVER: u32 = 1_000;

/// Lowest default value for which `Centered` fills from the default.
pub const CENTER_LOW: u32 = 450_000;

/// Highest default value for which `Centered` fills from the default.
pub const CENTER_HIGH: u32 = 550_000;

/// The middle of the normalized range.
pub const MIDPOINT: u32 = 500_000;

/// How the filled region of a slider is derived from the parameter.
#[derive(Debug, Clone, Copy, PartialEq, Eq, Structural)]
pub enum SliderStyle {
    Centered,
    FromLeft,
    FromMidPoint,
    CurrentStep { even: bool },
    CurrentStepLabeled { even: bool },
}

/// A width, or zero when it is under `SLIVER`.
pub open spec fn suppress_sliver(delta: int) -> int {
    if delta >= SLIVER { delta } else { 0 }
}

/// Whether a `Centered` slider fills from its default value.
pub open spec fn fills_from_default(style: SliderStyle, default: int, step_count: Option<u32>) -> bool {
    &&& style == SliderStyle::Centered
    &&& step_count is None
    &&& CENTER_LOW <= default <= CENTER_HIGH
}

/// Whether a stepped style spreads the range over `step_count + 1` equal slots.
pub open spec fn is_even_stepped(style: SliderStyle, step_count: Option<u32>) -> bool {
    &&& (style == SliderStyle::CurrentStep { even: true }
        || style == SliderStyle::CurrentStepLabeled { even: true })
    &&& step_count is Some
}

/// Whether a style shows the slot around the current step.
pub open spec fn is_stepped(style: SliderStyle) -> bool {
    style is CurrentStep || style is CurrentStepLabeled
}

/// Halves an integer, rounding toward zero.
pub open spec fn half_toward_zero(d: int) -> int {
    if d >= 0 { d / 2 } else { -((-d) / 2) }
}

/// The fill `(start, delta)` for a style, the current and default values, the
/// step count, and the steps before and after the current value.
pub open spec fn fill_spec(
    style: SliderStyle,
    current: int,
    default: int,
    step_count: Option<u32>,
    previous: int,
    next: int,
) -> (int, int) {
    if fills_from_default(style, default, step_count) {
        (min_int(default, current), suppress_sliver(abs_int(default - current)))
    } else if style == SliderStyle::FromMidPoint {
        (min_int(MIDPOINT as int, current), suppress_sliver(abs_int(MIDPOINT - current)))
    } else if style == SliderStyle::Centered || style == SliderStyle::FromLeft {
        (0, current)
    } else if is_even_stepped(style, step_count) {
        let n = step_count.unwrap() as int;
        ((current * n) / (n + 1), SCALE as int / (n + 1))
    } else {
        ((previous + current) / 2, half_toward_zero((next - current) + (current - previous)))
    }
}

/// `current * n / (n + 1)` never exceeds `current`.
proof fn lemma_scaled_below(current: int, n: int)
    requires
        current >= 0,
        n >= 0,
    ensures
        (current * n) / (n + 1) <= current,
{
    assert((current * n) / (n + 1) <= current) by (nonlinear_arith)
        requires current >= 0, n >= 0;
}

/// Computes the fill of a slider from plain values: `previous` and `next`
/// are the parameter's steps below and above `current`.
pub fn fill_start_delta(
    style: SliderStyle,
    current: u32,
    default: u32,
    step_count: Option<u32>,
    previous: u32,
    next: u32,
) -> (r: (u32, i32))
    requires
        is_normalized(current as int),
        is_normalized(default as int),
        is_normalized(previous as int),
        is_normalized(next as int),
    ensures
        (r.0 as int, r.1 as int) == fill_spec(style, current as int, default as int, step_count, previous as int, next as int),
{
    let from_default = match style {
        SliderStyle::Centered => step_count.is_none() && CENTER_LOW <= default && default <= CENTER_HIGH,
        _ => false,
    };
    if from_default {
        let (start, delta) = if default <= current { (default, current - default) } else { (current, default - current) };
        (start, if delta >= SLIVER { delta as i32 } else { 0 })
    } else {
        match style {
            SliderStyle::FromMidPoint => {
                let (start, delta) = if MIDPOINT <= current { (MIDPOINT, current - MIDPOINT) } else { (current, MIDPOINT - current) };
                (start, if delta >= SLIVER { delta as i32 } else { 0 })
            },
            SliderStyle::Centered | SliderStyle::FromLeft => (0, current as i32),
            SliderStyle::CurrentStep { even } | SliderStyle::CurrentStepLabeled { even } => {
                if even && step_count.is_some() {
                    let n = step_count.unwrap() as u64;
                    let slots: u64 = n + 1;
                    assert(current as u64 * n <= 1_000_000 * 0xffff_ffffu64) by (nonlinear_arith)
                        requires current <= 1_000_000, n <= 0xffff_ffffu64;
                    let start = (current as u64 * n) / slots;
                    proof {
                        lemma_scaled_below(current as int, n as int);
                    }
                    (start as u32, (SCALE as u64 / slots) as i32)
                } else {
                    let start = ((previous as u64 + current as u64) / 2) as u32;
                    let delta: i32 = if next >= previous {
                        ((next - previous) / 2) as i32
                    } else {
                        -(((previous - next) / 2) as i32)
                    };
                    (start, delta)
                }
            },
        }
    }
}


/// For every current value in range, the fill starts inside the range and
/// its start plus the magnitude of its width does not pass the top of the
/// range. The stepped styles that read the neighbouring steps need the step
/// below to lie at or under the step above.
pub proof fn lemma_fill_in_range(
    style: SliderStyle,
    current: int,
    default: int,
    step_count: Option<u32>,
    previous: int,
    next: int,
)
    requires
        is_normalized(current),
        is_normalized(default),
        is_normalized(previous),
        is_normalized(next),
        is_stepped(style) && !is_even_stepped(style, step_count) ==> previous <= next,
    ensures
        is_normalized(fill_spec(style, current, default, step_count, previous, next).0),
        fill_spec(style, current, default, step_count, previous, next).0
            + abs_int(fill_spec(style, current, default, step_count, previous, next).1) <= SCALE,
        -SCALE <= fill_spec(style, current, default, step_count, previous, next).1 <= SCALE,
{
    if !fills_from_default(style, default, step_count) && style != SliderStyle::FromMidPoint
        && style != SliderStyle::Centered && style != SliderStyle::FromLeft
        && is_even_stepped(style, step_count) {
        let n = step_count.unwrap() as int;
        lemma_slots_fit(current, n);
    }
}

/// The slot that holds `current` ends at or before the top of the range.
proof fn lemma_slots_fit(current: int, n: int)
    requires
        0 <= current <= SCALE,
        n >= 0,
    ensures
        0 <= (current * n) / (n + 1),
        (current * n) / (n + 1) + (SCALE as int) / (n + 1) <= SCALE,
{
    let s = SCALE as int;
    let d = n + 1;
    assert(0 <= (current * n) / d) by (nonlinear_arith)
        requires current >= 0, n >= 0, d == n + 1;
    assert((current * n) / d + s / d <= (current * n + s) / d) by (nonlinear_arith)
        requires current >= 0, n >= 0, d == n + 1, s >= 0;
    assert((current * n + s) / d <= s) by (nonlinear_arith)
        requires 0 <= current <= s, n >= 0, d == n + 1;
}

} // verus!
