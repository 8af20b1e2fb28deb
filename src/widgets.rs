//! The commits of the simpler widgets: an on/off switch and a dropdown of a
//! stepped parameter's values.
use vstd::prelude::*;
use crate::normalized::{SCALE, is_normalized};
use crate::fill::MIDPOINT;
use crate::gesture::GestureCommand;

verus! {

/// The commands of one commit of `v`: begin, set, end.
pub open spec fn commit(v: u32) -> Seq<GestureCommand> {
    seq![GestureCommand::Begin, GestureCommand::SetValue(v), GestureCommand::End]
}

fn commit_commands(v: u32) -> (r: Vec<GestureCommand>)
    ensures
        r@ == commit(v),
{
    let mut out: Vec<GestureCommand> = Vec::new();
    out.push(GestureCommand::Begin);
    out.push(GestureCommand::SetValue(v));
    out.push(GestureCommand::End);
    assert(out@ =~= commit(v));
    out
}

/// An on/off switch bound to a parameter.
pub struct ParamSwitch {}

impl ParamSwitch {
    /// The value a switch at `current` flips to: off when above the middle,
    /// else on.
    pub open spec fn toggled_spec(current: u32) -> u32 {
        if current > MIDPOINT { 0 } else { SCALE }
    }

    /// Flipping the switch: one commit of the other end of the range.
    pub fn toggle(current: u32) -> (r: Vec<GestureCommand>)
        ensures
            r@ == commit(Self::toggled_spec(current)),
    {
        let value = if current > MIDPOINT { 0 } else { SCALE };
        commit_commands(value)
    }
}

/// A dropdown listing every value of a stepped parameter.
pub struct ParamDropdown {}

impl ParamDropdown {
    /// Entry `k` of a dropdown over `n` steps.
    pub open spec fn option_spec(k: int, n: int) -> int {
        if n == 0 { 0 } else { (k * SCALE) / n }
    }

    /// The normalized values of the entries, `step_count + 1` of them, evenly
    /// spread from `0` to `SCALE`; a parameter without steps has the one
    /// entry `0`.
    pub fn option_values(step_count: u32) -> (r: Vec<u32>)
        ensures
            r@.len() == step_count + 1,
            forall|k: int| 0 <= k < r@.len() ==>
                #[trigger] r@[k] as int == Self::option_spec(k, step_count as int)
                && is_normalized(r@[k] as int),
    {
        let mut out: Vec<u32> = Vec::new();
        let mut k: u64 = 0;
        while k <= step_count as u64
            invariant
                k <= step_count + 1,
                out@.len() == k,
                forall|j: int| 0 <= j < k ==>
                    #[trigger] out@[j] as int == Self::option_spec(j, step_count as int)
                    && is_normalized(out@[j] as int),
            decreases step_count + 1 - k,
        {
            let v: u32 = if step_count == 0 {
                0
            } else {
                assert(k as u64 * 1_000_000 <= 0xffff_ffffu64 * 1_000_000) by (nonlinear_arith)
                    requires k <= 0xffff_ffffu64;
                let q = (k as u64 * SCALE as u64) / step_count as u64;
                assert(q <= 1_000_000) by (nonlinear_arith)
                    requires q == (k * 1_000_000int) / (step_count as int), k <= step_count, step_count > 0;
                q as u32
            };
            out.push(v);
            k = k + 1;
        }
        out
    }

    /// Picking an entry: one commit of its value.
    pub fn select(value: u32) -> (r: Vec<GestureCommand>)
        ensures
            r@ == commit(value),
    {
        commit_commands(value)
    }
}

} // verus!
