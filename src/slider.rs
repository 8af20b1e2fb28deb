//! The slider's interaction state: drags, scrolling, arrow keys and text
//! entry, each turned into begin / set / end commands for the parameter.
use vstd::prelude::*;
use crate::normalized::{SCALE, is_normalized, clamp_normalized};
use crate::fill::{SliderStyle, fill_spec, fill_start_delta};
use crate::track::{
    TrackGeometry, x_to_value_spec, value_to_x_spec, granular_offset_spec, x_to_value,
    value_to_x, granular_offset,
};
use crate::gesture::{
    GestureCommand, gesture_after, all_sets, sets_normalized, lemma_sets_keep_open, lemma_wrapped_sets,
};
use crate::parameter::NormalizedParameter;

verus! {

/// Scroll distances are counted in thousandths of a line.
pub const LINE: i32 = 1_000;

/// Where a granular drag was anchored: the pointer and the value at that moment.
#[derive(Debug, Clone, Copy, PartialEq, Eq, Structural)]
pub struct GranularDragStatus {
    pub starting_x_coordinate: i32,
    pub starting_value: u32,
}

/// The modifier keys held during an input event.
#[derive(Debug, Clone, Copy, PartialEq, Eq, Structural)]
pub struct Modifiers {
    /// Resets the parameter to its default on pointer-down.
    pub reset: bool,
    /// Makes a drag granular.
    pub granular: bool,
    /// Asks for finer steps when scrolling or pressing arrow keys.
    pub fine: bool,
}

/// A reference mark drawn under the track.
#[derive(Debug)]
pub struct SliderTick {
    /// Normalized position of the mark.
    pub pos: u32,
    pub label: Option<String>,
    pub short: bool,
}

/// What changes while the user works the slider.
#[derive(Debug, Clone, Copy, PartialEq, Eq, Structural)]
pub struct SliderState {
    pub dragging: bool,
    pub granular_drag_status: Option<GranularDragStatus>,
    pub text_input_active: bool,
    /// Scrolled distance not yet turned into steps, in thousandths of a line.
    pub scrolled_lines: i32,
}

/// A slider bound to a normalized parameter.
#[derive(Debug)]
pub struct ParamSlider {
    pub style: SliderStyle,
    pub ticks: Vec<SliderTick>,
    pub state: SliderState,
}

/// An input event, with the modifier keys held at the time.
#[derive(Debug)]
pub enum SliderEvent {
    PointerDown { x: i32, modifiers: Modifiers },
    PointerMove { x: i32, modifiers: Modifiers },
    PointerUp,
    /// The pointer capture was lost, or the widget goes away mid-drag.
    DragCancelled,
    DoubleClick,
    Scroll { lines: i32, modifiers: Modifiers },
    StepUp { modifiers: Modifiers },
    StepDown { modifiers: Modifiers },
    EnterKey,
    TextSubmitted(String),
    TextCancelled,
}

impl SliderState {
    /// Never dragging and editing text at once; an anchor only during a drag;
    /// less than one line of scrolling left over.
    pub open spec fn wf(self) -> bool {
        &&& !(self.dragging && self.text_input_active)
        &&& (self.granular_drag_status is Some ==> self.dragging)
        &&& (self.granular_drag_status matches Some(a) ==> is_normalized(a.starting_value as int))
        &&& -LINE < self.scrolled_lines < LINE
    }

    /// The state of a slider nobody is touching.
    pub open spec fn idle() -> SliderState {
        SliderState {
            dragging: false,
            granular_drag_status: None,
            text_input_active: false,
            scrolled_lines: 0,
        }
    }
}

/// The value a granular drag sets when the pointer is at `x`.
pub open spec fn granular_value_spec(g: TrackGeometry, a: GranularDragStatus, x: int) -> int {
    x_to_value_spec(
        g,
        value_to_x_spec(g, a.starting_value as int) + granular_offset_spec(
            x - a.starting_x_coordinate,
            g.scale_percent as int,
        ),
    )
}

/// One step up or down from `v`.
pub open spec fn step_once<P: NormalizedParameter>(p: &P, v: u32, up: bool, fine: bool) -> u32 {
    if up { p.next_step_spec(v, fine) } else { p.previous_step_spec(v, fine) }
}

/// `k` steps up or down from `v`.
pub open spec fn step_iter<P: NormalizedParameter>(p: &P, v: u32, k: nat, up: bool, fine: bool) -> u32
    decreases k,
{
    if k == 0 { v } else { step_once(p, step_iter(p, v, (k - 1) as nat, up, fine), up, fine) }
}

/// The sets of `k` single steps from `v`, one after the other.
pub open spec fn step_run<P: NormalizedParameter>(
    p: &P,
    v: u32,
    k: nat,
    up: bool,
    fine: bool,
) -> Seq<GestureCommand>
    decreases k,
{
    if k == 0 {
        seq![]
    } else {
        step_run(p, v, (k - 1) as nat, up, fine).push(GestureCommand::SetValue(step_iter(p, v, k, up, fine)))
    }
}

/// Commands wrapped in their own begin and end, unless a gesture is open already.
pub open spec fn in_gesture(open: bool, cmds: Seq<GestureCommand>) -> Seq<GestureCommand> {
    if open { cmds } else { seq![GestureCommand::Begin] + cmds + seq![GestureCommand::End] }
}

/// Pointer-down: a reset commit, or the start of a drag.
pub open spec fn pointer_down_spec(
    s: SliderState,
    x: i32,
    m: Modifiers,
    current: u32,
    default: u32,
) -> (SliderState, Seq<GestureCommand>) {
    if s.text_input_active {
        (s, seq![])
    } else if m.reset {
        (s, in_gesture(s.dragging, seq![GestureCommand::SetValue(default)]))
    } else {
        let anchor = if m.granular {
            Some(GranularDragStatus { starting_x_coordinate: x, starting_value: current })
        } else {
            None
        };
        (
            SliderState { dragging: true, granular_drag_status: anchor, ..s },
            if s.dragging { seq![] } else { seq![GestureCommand::Begin] },
        )
    }
}

/// Pointer-move: during a drag, sets the value under the pointer, or the
/// anchored value moved by the slowed pointer offset.
pub open spec fn pointer_move_spec(
    s: SliderState,
    x: i32,
    m: Modifiers,
    current: u32,
    g: TrackGeometry,
) -> (SliderState, Seq<GestureCommand>) {
    if !s.dragging {
        (s, seq![])
    } else if m.granular {
        let a = match s.granular_drag_status {
            Some(a) => a,
            None => GranularDragStatus { starting_x_coordinate: x, starting_value: current },
        };
        (
            SliderState { granular_drag_status: Some(a), ..s },
            seq![GestureCommand::SetValue(granular_value_spec(g, a, x as int) as u32)],
        )
    } else {
        (
            SliderState { granular_drag_status: None, ..s },
            seq![GestureCommand::SetValue(x_to_value_spec(g, x as int) as u32)],
        )
    }
}

/// Pointer-up or a cancelled drag: ends the drag's gesture.
pub open spec fn pointer_up_spec(s: SliderState) -> (SliderState, Seq<GestureCommand>) {
    if s.dragging {
        (SliderState { dragging: false, granular_drag_status: None, ..s }, seq![GestureCommand::End])
    } else {
        (s, seq![])
    }
}

/// The scrolled distance after adding `lines`.
pub open spec fn scroll_total(s: SliderState, lines: i32) -> int {
    s.scrolled_lines + lines
}

/// The number of whole lines in a scrolled distance.
pub open spec fn whole_lines(acc: int) -> nat {
    (if acc >= 0 { acc / (LINE as int) } else { (-acc) / (LINE as int) }) as nat
}

/// What is left of a scrolled distance once its whole lines are taken out.
pub open spec fn scroll_remainder(acc: int) -> int {
    if acc >= 0 { acc % (LINE as int) } else { -((-acc) % (LINE as int)) }
}

/// A scroll: one step per whole line, all in one gesture.
pub open spec fn scroll_spec<P: NormalizedParameter>(
    s: SliderState,
    p: &P,
    lines: i32,
    fine: bool,
    current: u32,
) -> (SliderState, Seq<GestureCommand>) {
    if s.text_input_active {
        (s, seq![])
    } else {
        let acc = scroll_total(s, lines);
        let k = whole_lines(acc);
        let s2 = SliderState { scrolled_lines: scroll_remainder(acc) as i32, ..s };
        if k == 0 {
            (s2, seq![])
        } else {
            (s2, in_gesture(s.dragging, step_run(p, current, k, acc > 0, fine)))
        }
    }
}

/// An arrow key: one step, in a gesture of its own unless a drag has one open.
pub open spec fn step_key_spec<P: NormalizedParameter>(
    s: SliderState,
    p: &P,
    up: bool,
    fine: bool,
    current: u32,
) -> (SliderState, Seq<GestureCommand>) {
    if s.text_input_active {
        (s, seq![])
    } else {
        (s, in_gesture(s.dragging, seq![GestureCommand::SetValue(step_once(p, current, up, fine))]))
    }
}

/// Entering text edit, refused during a drag or an edit.
pub open spec fn start_text_edit_spec(s: SliderState) -> (SliderState, bool) {
    if s.dragging || s.text_input_active {
        (s, false)
    } else {
        (SliderState { text_input_active: true, ..s }, true)
    }
}

/// Submitting the edited text: commits what it parses to, and leaves edit mode.
pub open spec fn submit_text_spec<P: NormalizedParameter>(
    s: SliderState,
    p: &P,
    text: Seq<char>,
) -> (SliderState, Seq<GestureCommand>) {
    if !s.text_input_active {
        (s, seq![])
    } else {
        (
            SliderState { text_input_active: false, ..s },
            match p.parse_spec(text) {
                Some(v) => in_gesture(s.dragging, seq![GestureCommand::SetValue(v)]),
                None => seq![],
            },
        )
    }
}

/// Cancelling the edit, or losing focus: leaves edit mode without a commit.
pub open spec fn cancel_text_spec(s: SliderState) -> SliderState {
    SliderState { text_input_active: false, ..s }
}

/// Whether a transition's commands take the gesture from the old drag flag to
/// the new one without a misplaced command.
pub open spec fn brackets(s: SliderState, t: SliderState, cmds: Seq<GestureCommand>) -> bool {
    gesture_after(Some(s.dragging), cmds) == Some(t.dragging)
}

/// A step run is sets alone.
pub proof fn lemma_step_run_sets<P: NormalizedParameter>(p: &P, v: u32, k: nat, up: bool, fine: bool)
    ensures
        all_sets(step_run(p, v, k, up, fine)),
        step_run(p, v, k, up, fine).len() == k,
    decreases k,
{
    if k > 0 {
        lemma_step_run_sets(p, v, (k - 1) as nat, up, fine);
        let r = step_run(p, v, k, up, fine);
        assert forall|i: int| 0 <= i < r.len() implies (#[trigger] r[i]) is SetValue by {
            if i < r.len() - 1 {
                assert(r[i] == step_run(p, v, (k - 1) as nat, up, fine)[i]);
            }
        }
    }
}

/// Sets placed in a gesture leave it as the open flag found it.
proof fn lemma_in_gesture(open: bool, cmds: Seq<GestureCommand>)
    requires
        all_sets(cmds),
    ensures
        gesture_after(Some(open), in_gesture(open, cmds)) == Some(open),
{
    if open {
        lemma_sets_keep_open(cmds);
    } else {
        lemma_wrapped_sets(cmds);
    }
}

/// One set alone.
proof fn lemma_single_set(v: u32)
    ensures
        all_sets(seq![GestureCommand::SetValue(v)]),
{
    let c = seq![GestureCommand::SetValue(v)];
    assert forall|i: int| 0 <= i < c.len() implies (#[trigger] c[i]) is SetValue by {
        assert(c[i] == GestureCommand::SetValue(v));
    }
}

/// One command applied to a gesture flag.
proof fn lemma_one_command(open: bool, c: GestureCommand)
    ensures
        gesture_after(Some(open), seq![c]) == crate::gesture::gesture_step(Some(open), c),
{
    let one = seq![c];
    assert(one.drop_last() =~= Seq::<GestureCommand>::empty());
    assert(gesture_after(Some(open), one.drop_last()) == Some(open));
    assert(one.last() == c);
}


impl ParamSlider {
    /// Whether `self` differs from `other` at most in its interaction state.
    pub open spec fn same_setup(&self, other: &ParamSlider) -> bool {
        self.style == other.style && self.ticks@ == other.ticks@
    }

    /// An idle slider with a fill style and reference marks.
    pub fn new(style: SliderStyle, ticks: Vec<SliderTick>) -> (r: ParamSlider)
        ensures
            r.style == style,
            r.ticks@ == ticks@,
            r.state == SliderState::idle(),
            r.state.wf(),
    {
        ParamSlider {
            style,
            ticks,
            state: SliderState {
                dragging: false,
                granular_drag_status: None,
                text_input_active: false,
                scrolled_lines: 0,
            },
        }
    }

    /// The fill `(start, delta)` of a slider of `style` whose parameter is at
    /// `current`.
    pub fn compute_fill_start_delta<P: NormalizedParameter>(
        style: SliderStyle,
        param: &P,
        current: u32,
    ) -> (r: (u32, i32))
        requires
            param.wf(),
            is_normalized(current as int),
        ensures
            (r.0 as int, r.1 as int) == fill_spec(
                style,
                current as int,
                param.default_spec() as int,
                param.step_count_spec(),
                param.previous_step_spec(current, false) as int,
                param.next_step_spec(current, false) as int,
            ),
    {
        let default = param.default_normalized_value();
        let step_count = param.step_count();
        let previous = param.previous_step(current, false);
        let next = param.next_step(current, false);
        fill_start_delta(style, current, default, step_count, previous, next)
    }

    /// Pointer-down with the primary button. `current` and `default` are the
    /// parameter's value and default value.
    pub fn pointer_down(&mut self, x: i32, modifiers: Modifiers, current: u32, default: u32) -> (r: Vec<GestureCommand>)
        requires
            old(self).state.wf(),
            is_normalized(current as int),
            is_normalized(default as int),
        ensures
            final(self).state.wf(),
            final(self).same_setup(old(self)),
            (final(self).state, r@) == pointer_down_spec(old(self).state, x, modifiers, current, default),
            brackets(old(self).state, final(self).state, r@),
            sets_normalized(r@),
    {
        let mut out: Vec<GestureCommand> = Vec::new();
        if self.state.text_input_active {
            return out;
        }
        if modifiers.reset {
            if !self.state.dragging {
                out.push(GestureCommand::Begin);
            }
            out.push(GestureCommand::SetValue(default));
            if !self.state.dragging {
                out.push(GestureCommand::End);
            }
            proof {
                lemma_single_set(default);
                lemma_in_gesture(self.state.dragging, seq![GestureCommand::SetValue(default)]);
                assert(out@ =~= in_gesture(self.state.dragging, seq![GestureCommand::SetValue(default)]));
            }
            return out;
        }
        if !self.state.dragging {
            out.push(GestureCommand::Begin);
            proof {
                lemma_one_command(false, GestureCommand::Begin);
            }
        }
        self.state.dragging = true;
        self.state.granular_drag_status = if modifiers.granular {
            Some(GranularDragStatus { starting_x_coordinate: x, starting_value: current })
        } else {
            None
        };
        out
    }

    /// Pointer-move to `x`. `current` is the parameter's value.
    pub fn pointer_move(&mut self, x: i32, modifiers: Modifiers, current: u32, geometry: TrackGeometry) -> (r: Vec<GestureCommand>)
        requires
            old(self).state.wf(),
            is_normalized(current as int),
        ensures
            final(self).state.wf(),
            final(self).same_setup(old(self)),
            (final(self).state, r@) == pointer_move_spec(old(self).state, x, modifiers, current, geometry),
            brackets(old(self).state, final(self).state, r@),
            sets_normalized(r@),
    {
        let mut out: Vec<GestureCommand> = Vec::new();
        if !self.state.dragging {
            return out;
        }
        let value = if modifiers.granular {
            let anchor = match self.state.granular_drag_status {
                Some(a) => a,
                None => GranularDragStatus { starting_x_coordinate: x, starting_value: current },
            };
            self.state.granular_drag_status = Some(anchor);
            let start_x = value_to_x(geometry, anchor.starting_value);
            let delta_x = granular_offset(x as i64 - anchor.starting_x_coordinate as i64, geometry.scale_percent);
            x_to_value(geometry, start_x + delta_x)
        } else {
            self.state.granular_drag_status = None;
            x_to_value(geometry, x as i64)
        };
        out.push(GestureCommand::SetValue(value));
        proof {
            lemma_single_set(value);
            lemma_sets_keep_open(out@);
        }
        out
    }

    /// Pointer-up, or a cancelled drag: closes the drag's gesture.
    pub fn pointer_up(&mut self) -> (r: Vec<GestureCommand>)
        requires
            old(self).state.wf(),
        ensures
            final(self).state.wf(),
            final(self).same_setup(old(self)),
            (final(self).state, r@) == pointer_up_spec(old(self).state),
            brackets(old(self).state, final(self).state, r@),
            sets_normalized(r@),
    {
        let mut out: Vec<GestureCommand> = Vec::new();
        if self.state.dragging {
            self.state.dragging = false;
            self.state.granular_drag_status = None;
            out.push(GestureCommand::End);
            proof {
                lemma_one_command(true, GestureCommand::End);
            }
        }
        out
    }

    /// A scroll of `lines` thousandths of a line (positive is up). `current`
    /// is the parameter's value.
    pub fn scroll<P: NormalizedParameter>(&mut self, param: &P, lines: i32, fine: bool, current: u32) -> (r: Vec<GestureCommand>)
        requires
            old(self).state.wf(),
            param.wf(),
            is_normalized(current as int),
        ensures
            final(self).state.wf(),
            final(self).same_setup(old(self)),
            (final(self).state, r@) == scroll_spec(old(self).state, param, lines, fine, current),
            brackets(old(self).state, final(self).state, r@),
            sets_normalized(r@),
    {
        let mut out: Vec<GestureCommand> = Vec::new();
        if self.state.text_input_active {
            return out;
        }
        let acc: i64 = self.state.scrolled_lines as i64 + lines as i64;
        let up = acc > 0;
        let magnitude: u64 = if acc >= 0 { acc as u64 } else { (-acc) as u64 };
        let k: u64 = magnitude / LINE as u64;
        let rest: u64 = magnitude % LINE as u64;
        self.state.scrolled_lines = if acc >= 0 { rest as i32 } else { -(rest as i32) };
        if k == 0 {
            return out;
        }
        let open = self.state.dragging;
        if !open {
            out.push(GestureCommand::Begin);
        }
        let ghost prefix = out@;
        let mut value = current;
        let mut i: u64 = 0;
        while i < k
            invariant
                param.wf(),
                i <= k,
                is_normalized(value as int),
                value == step_iter(param, current, i as nat, up, fine),
                out@ == prefix + step_run(param, current, i as nat, up, fine),
                sets_normalized(out@),
            decreases k - i,
        {
            value = if up { param.next_step(value, fine) } else { param.previous_step(value, fine) };
            out.push(GestureCommand::SetValue(value));
            i = i + 1;
            assert(out@ =~= prefix + step_run(param, current, i as nat, up, fine));
        }
        if !open {
            out.push(GestureCommand::End);
        }
        proof {
            lemma_step_run_sets(param, current, k as nat, up, fine);
            lemma_in_gesture(open, step_run(param, current, k as nat, up, fine));
            assert(out@ =~= in_gesture(open, step_run(param, current, k as nat, up, fine)));
        }
        out
    }

    /// An arrow key: one step up or down. `current` is the parameter's value.
    pub fn step_key<P: NormalizedParameter>(&mut self, param: &P, up: bool, fine: bool, current: u32) -> (r: Vec<GestureCommand>)
        requires
            old(self).state.wf(),
            param.wf(),
            is_normalized(current as int),
        ensures
            final(self).state.wf(),
            final(self).same_setup(old(self)),
            (final(self).state, r@) == step_key_spec(old(self).state, param, up, fine, current),
            brackets(old(self).state, final(self).state, r@),
            sets_normalized(r@),
    {
        let mut out: Vec<GestureCommand> = Vec::new();
        if self.state.text_input_active {
            return out;
        }
        let value = if up { param.next_step(current, fine) } else { param.previous_step(current, fine) };
        if !self.state.dragging {
            out.push(GestureCommand::Begin);
        }
        out.push(GestureCommand::SetValue(value));
        if !self.state.dragging {
            out.push(GestureCommand::End);
        }
        proof {
            lemma_single_set(value);
            lemma_in_gesture(self.state.dragging, seq![GestureCommand::SetValue(value)]);
            assert(out@ =~= in_gesture(self.state.dragging, seq![GestureCommand::SetValue(value)]));
        }
        out
    }

    /// Enter or double-click: opens the text editor, unless a drag or an edit
    /// is under way. Returns whether edit mode was entered.
    pub fn start_text_edit(&mut self) -> (r: bool)
        requires
            old(self).state.wf(),
        ensures
            final(self).state.wf(),
            final(self).same_setup(old(self)),
            (final(self).state, r) == start_text_edit_spec(old(self).state),
            final(self).state.dragging == old(self).state.dragging,
    {
        if self.state.dragging || self.state.text_input_active {
            false
        } else {
            self.state.text_input_active = true;
            true
        }
    }

    /// Submits the edited text: a value it parses to is committed; either way
    /// edit mode ends.
    pub fn submit_text<P: NormalizedParameter>(&mut self, param: &P, text: &str) -> (r: Vec<GestureCommand>)
        requires
            old(self).state.wf(),
            param.wf(),
        ensures
            final(self).state.wf(),
            final(self).same_setup(old(self)),
            (final(self).state, r@) == submit_text_spec(old(self).state, param, text@),
            brackets(old(self).state, final(self).state, r@),
            sets_normalized(r@),
    {
        let mut out: Vec<GestureCommand> = Vec::new();
        if !self.state.text_input_active {
            return out;
        }
        self.state.text_input_active = false;
        match param.parse(text) {
            Some(v) => {
                out.push(GestureCommand::Begin);
                out.push(GestureCommand::SetValue(v));
                out.push(GestureCommand::End);
                proof {
                    lemma_single_set(v);
                    lemma_in_gesture(false, seq![GestureCommand::SetValue(v)]);
                    assert(out@ =~= in_gesture(false, seq![GestureCommand::SetValue(v)]));
                }
            },
            None => {},
        }
        out
    }

    /// Cancels the edit, or loses focus: edit mode ends without a commit.
    pub fn cancel_text_edit(&mut self)
        requires
            old(self).state.wf(),
        ensures
            final(self).state.wf(),
            final(self).same_setup(old(self)),
            final(self).state == cancel_text_spec(old(self).state),
    {
        self.state.text_input_active = false;
    }
}


/// The state and commands that follow one event. `current` is the parameter's
/// value read for the event, `g` the track's geometry.
pub open spec fn event_spec<P: NormalizedParameter>(
    s: SliderState,
    p: &P,
    e: SliderEvent,
    current: u32,
    g: TrackGeometry,
) -> (SliderState, Seq<GestureCommand>) {
    match e {
        SliderEvent::PointerDown { x, modifiers } => pointer_down_spec(s, x, modifiers, current, p.default_spec()),
        SliderEvent::PointerMove { x, modifiers } => pointer_move_spec(s, x, modifiers, current, g),
        SliderEvent::PointerUp => pointer_up_spec(s),
        SliderEvent::DragCancelled => pointer_up_spec(s),
        SliderEvent::DoubleClick => (start_text_edit_spec(s).0, seq![]),
        SliderEvent::EnterKey => (start_text_edit_spec(s).0, seq![]),
        SliderEvent::Scroll { lines, modifiers } => scroll_spec(s, p, lines, modifiers.fine, current),
        SliderEvent::StepUp { modifiers } => step_key_spec(s, p, true, modifiers.fine, current),
        SliderEvent::StepDown { modifiers } => step_key_spec(s, p, false, modifiers.fine, current),
        SliderEvent::TextSubmitted(text) => submit_text_spec(s, p, text@),
        SliderEvent::TextCancelled => (cancel_text_spec(s), seq![]),
    }
}

/// Every event keeps the state well formed, and its commands take the gesture
/// from the old drag flag to the new one with nothing misplaced.
pub proof fn lemma_event_brackets<P: NormalizedParameter>(
    s: SliderState,
    p: &P,
    e: SliderEvent,
    current: u32,
    g: TrackGeometry,
)
    requires
        s.wf(),
        is_normalized(current as int),
    ensures
        event_spec(s, p, e, current, g).0.wf(),
        brackets(s, event_spec(s, p, e, current, g).0, event_spec(s, p, e, current, g).1),
{
    let empty = Seq::<GestureCommand>::empty();
    assert(gesture_after(Some(s.dragging), empty) == Some(s.dragging));
    match e {
        SliderEvent::PointerDown { x, modifiers } => {
            lemma_single_set(p.default_spec());
            lemma_in_gesture(s.dragging, seq![GestureCommand::SetValue(p.default_spec())]);
            lemma_one_command(false, GestureCommand::Begin);
        },
        SliderEvent::PointerMove { x, modifiers } => {
            let t = pointer_move_spec(s, x, modifiers, current, g);
            if s.dragging {
                assert(t.1.len() == 1);
                lemma_single_set(t.1[0]->SetValue_0);
                assert(t.1 =~= seq![GestureCommand::SetValue(t.1[0]->SetValue_0)]);
                lemma_sets_keep_open(t.1);
            }
        },
        SliderEvent::PointerUp => {
            lemma_one_command(true, GestureCommand::End);
        },
        SliderEvent::DragCancelled => {
            lemma_one_command(true, GestureCommand::End);
        },
        SliderEvent::Scroll { lines, modifiers } => {
            let acc = scroll_total(s, lines);
            let k = whole_lines(acc);
            lemma_step_run_sets(p, current, k, acc > 0, modifiers.fine);
            lemma_in_gesture(s.dragging, step_run(p, current, k, acc > 0, modifiers.fine));
        },
        SliderEvent::StepUp { modifiers } => {
            let v = step_once(p, current, true, modifiers.fine);
            lemma_single_set(v);
            lemma_in_gesture(s.dragging, seq![GestureCommand::SetValue(v)]);
        },
        SliderEvent::StepDown { modifiers } => {
            let v = step_once(p, current, false, modifiers.fine);
            lemma_single_set(v);
            lemma_in_gesture(s.dragging, seq![GestureCommand::SetValue(v)]);
        },
        SliderEvent::TextSubmitted(text) => {
            match p.parse_spec(text@) {
                Some(v) => {
                    lemma_single_set(v);
                    lemma_in_gesture(s.dragging, seq![GestureCommand::SetValue(v)]);
                },
                None => {},
            }
        },
        _ => {},
    }
}

/// The commands of a run of events, one list after the other.
pub open spec fn concat_all(outs: Seq<Seq<GestureCommand>>) -> Seq<GestureCommand>
    decreases outs.len(),
{
    if outs.len() == 0 {
        seq![]
    } else {
        concat_all(outs.drop_last()) + outs.last()
    }
}

/// Whether `states`, `outs` record a run of `events` from `states[0]`: each
/// state and command list is what the event before it gives.
pub open spec fn is_run<P: NormalizedParameter>(
    states: Seq<SliderState>,
    outs: Seq<Seq<GestureCommand>>,
    params: Seq<P>,
    events: Seq<SliderEvent>,
    currents: Seq<u32>,
    g: TrackGeometry,
) -> bool {
    &&& states.len() == events.len() + 1
    &&& outs.len() == events.len()
    &&& params.len() == events.len()
    &&& currents.len() == events.len()
    &&& forall|i: int| 0 <= i < events.len() ==> is_normalized(#[trigger] currents[i] as int)
    &&& forall|i: int| 0 <= i < events.len() ==>
        (states[i + 1], outs[i]) == #[trigger] event_spec(states[i], &params[i], events[i], currents[i], g)
}

/// In any run of events from an idle slider, the commands so far leave a
/// gesture open exactly while a drag is under way; so once no drag is under
/// way, every begin has been closed by exactly one end, with only sets
/// between them and none outside.
pub proof fn lemma_run_well_bracketed<P: NormalizedParameter>(
    states: Seq<SliderState>,
    outs: Seq<Seq<GestureCommand>>,
    params: Seq<P>,
    events: Seq<SliderEvent>,
    currents: Seq<u32>,
    g: TrackGeometry,
)
    requires
        is_run(states, outs, params, events, currents, g),
        states[0] == SliderState::idle(),
    ensures
        states.last().wf(),
        gesture_after(Some(false), concat_all(outs)) == Some(states.last().dragging),
        !states.last().dragging ==> crate::gesture::is_well_bracketed(concat_all(outs)),
    decreases events.len(),
{
    if events.len() > 0 {
        let n = events.len() - 1;
        lemma_run_well_bracketed(
            states.drop_last(),
            outs.drop_last(),
            params.drop_last(),
            events.drop_last(),
            currents.drop_last(),
            g,
        );
        assert(states.drop_last().last() == states[n]);
        assert(is_normalized(currents[n] as int));
        assert((states[n + 1], outs[n]) == event_spec(states[n], &params[n], events[n], currents[n], g));
        lemma_event_brackets(states[n], &params[n], events[n], currents[n], g);
        crate::gesture::lemma_gesture_after_concat(Some(false), concat_all(outs.drop_last()), outs[n]);
    }
}

/// A slider that is dragging refuses to enter text edit.
pub proof fn lemma_no_text_edit_while_dragging(s: SliderState)
    requires
        s.dragging,
    ensures
        start_text_edit_spec(s) == (s, false),
{
}

impl ParamSlider {
    /// Handles one input event. `current` is the parameter's value read for
    /// this event; `geometry` is where the track lies.
    pub fn handle_event<P: NormalizedParameter>(
        &mut self,
        param: &P,
        event: &SliderEvent,
        current: u32,
        geometry: TrackGeometry,
    ) -> (r: Vec<GestureCommand>)
        requires
            old(self).state.wf(),
            param.wf(),
            is_normalized(current as int),
        ensures
            final(self).state.wf(),
            final(self).same_setup(old(self)),
            (final(self).state, r@) == event_spec(old(self).state, param, *event, current, geometry),
            brackets(old(self).state, final(self).state, r@),
            sets_normalized(r@),
    {
        match event {
            SliderEvent::PointerDown { x, modifiers } => {
                let default = param.default_normalized_value();
                self.pointer_down(*x, *modifiers, current, default)
            },
            SliderEvent::PointerMove { x, modifiers } => self.pointer_move(*x, *modifiers, current, geometry),
            SliderEvent::PointerUp => self.pointer_up(),
            SliderEvent::DragCancelled => self.pointer_up(),
            SliderEvent::DoubleClick => {
                self.start_text_edit();
                Vec::new()
            },
            SliderEvent::EnterKey => {
                self.start_text_edit();
                Vec::new()
            },
            SliderEvent::Scroll { lines, modifiers } => self.scroll(param, *lines, modifiers.fine, current),
            SliderEvent::StepUp { modifiers } => self.step_key(param, true, modifiers.fine, current),
            SliderEvent::StepDown { modifiers } => self.step_key(param, false, modifiers.fine, current),
            SliderEvent::TextSubmitted(text) => self.submit_text(param, text.as_str()),
            SliderEvent::TextCancelled => {
                self.cancel_text_edit();
                Vec::new()
            },
        }
    }
}


impl ParamSlider {
    /// The track positions of the reference marks, through the same mapping
    /// as the fill; a position past the ends of the range is held at the end.
    pub fn tick_positions(&self, geometry: TrackGeometry) -> (r: Vec<i64>)
        ensures
            r@.len() == self.ticks@.len(),
            forall|i: int| 0 <= i < r@.len() ==>
                #[trigger] r@[i] == value_to_x_spec(geometry, clamp_normalized(self.ticks@[i].pos as int)),
    {
        let mut out: Vec<i64> = Vec::new();
        let mut i: usize = 0;
        while i < self.ticks.len()
            invariant
                0 <= i <= self.ticks@.len(),
                out@.len() == i,
                forall|j: int| 0 <= j < i ==>
                    #[trigger] out@[j] == value_to_x_spec(geometry, clamp_normalized(self.ticks@[j].pos as int)),
            decreases self.ticks@.len() - i,
        {
            let pos = self.ticks[i].pos;
            let t = if pos >= SCALE { SCALE } else { pos };
            out.push(value_to_x(geometry, t));
            i = i + 1;
        }
        out
    }
}

} // verus!
