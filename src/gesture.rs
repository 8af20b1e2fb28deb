//! Begin / set / end commands sent to the parameter, and what makes a
//! sequence of them well bracketed.
use vstd::prelude::*;

verus! {

/// One call of the parameter's gesture interface.
#[derive(Debug, Clone, Copy, PartialEq, Eq, Structural)]
pub enum GestureCommand {
    Begin,
    SetValue(u32),
    End,
}

/// One command applied to the gesture's open flag; `None` where the command
/// is misplaced (a begin inside an open gesture, a set or end outside one).
pub open spec fn gesture_step(open: Option<bool>, c: GestureCommand) -> Option<bool> {
    match open {
        None => None,
        Some(o) => match c {
            GestureCommand::Begin => if o { None } else { Some(true) },
            GestureCommand::SetValue(_) => if o { Some(true) } else { None },
            GestureCommand::End => if o { Some(false) } else { None },
        },
    }
}

/// Whether a gesture is open after `cmds`, starting from `open`; `None` where
/// some command is misplaced.
pub open spec fn gesture_after(open: Option<bool>, cmds: Seq<GestureCommand>) -> Option<bool>
    decreases cmds.len(),
{
    if cmds.len() == 0 {
        open
    } else {
        gesture_step(gesture_after(open, cmds.drop_last()), cmds.last())
    }
}

/// A trace in which every begin is closed by exactly one end, with only sets
/// between them and none outside.
pub open spec fn is_well_bracketed(cmds: Seq<GestureCommand>) -> bool {
    gesture_after(Some(false), cmds) == Some(false)
}

/// Whether every command of a sequence is a set.
pub open spec fn all_sets(cmds: Seq<GestureCommand>) -> bool {
    forall|i: int| 0 <= i < cmds.len() ==> (#[trigger] cmds[i]) is SetValue
}

/// Running two command sequences one after the other is running the second
/// from where the first left the gesture.
pub proof fn lemma_gesture_after_concat(open: Option<bool>, a: Seq<GestureCommand>, b: Seq<GestureCommand>)
    ensures
        gesture_after(open, a + b) == gesture_after(gesture_after(open, a), b),
    decreases b.len(),
{
    if b.len() == 0 {
        assert(a + b =~= a);
    } else {
        lemma_gesture_after_concat(open, a, b.drop_last());
        assert((a + b).drop_last() =~= a + b.drop_last());
        assert((a + b).last() == b.last());
    }
}

/// Sets alone leave an open gesture open.
pub proof fn lemma_sets_keep_open(cmds: Seq<GestureCommand>)
    requires
        all_sets(cmds),
    ensures
        gesture_after(Some(true), cmds) == Some(true),
    decreases cmds.len(),
{
    if cmds.len() > 0 {
        assert(all_sets(cmds.drop_last()));
        lemma_sets_keep_open(cmds.drop_last());
        assert(cmds.last() == cmds[cmds.len() - 1]);
    }
}

/// Sets wrapped in one begin and one end close again.
pub proof fn lemma_wrapped_sets(cmds: Seq<GestureCommand>)
    requires
        all_sets(cmds),
    ensures
        gesture_after(Some(false), seq![GestureCommand::Begin] + cmds + seq![GestureCommand::End]) == Some(false),
{
    let b = seq![GestureCommand::Begin];
    let e = seq![GestureCommand::End];
    lemma_gesture_after_concat(Some(false), b + cmds, e);
    lemma_gesture_after_concat(Some(false), b, cmds);
    assert(b.drop_last() =~= Seq::<GestureCommand>::empty());
    assert(gesture_after(Some(false), b.drop_last()) == Some(false));
    assert(b.last() == GestureCommand::Begin);
    assert(gesture_after(Some(false), b) == Some(true));
    lemma_sets_keep_open(cmds);
    assert(e.drop_last() =~= Seq::<GestureCommand>::empty());
    assert(gesture_after(Some(true), e.drop_last()) == Some(true));
    assert(e.last() == GestureCommand::End);
    assert(gesture_after(Some(true), e) == Some(false));
}


/// Whether every set in a sequence commits a value inside the normalized range.
pub open spec fn sets_normalized(cmds: Seq<GestureCommand>) -> bool {
    forall|i: int| 0 <= i < cmds.len() ==>
        ((#[trigger] cmds[i]) matches GestureCommand::SetValue(v) ==> crate::normalized::is_normalized(v as int))
}

} // verus!
