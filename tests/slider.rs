use astra::{
    GestureCommand, Modifiers, NormalizedParameter, ParamSlider, SliderEvent, SliderStyle, SliderTick,
    SteppedParameter, TrackGeometry, SCALE,
};
use GestureCommand::{Begin, End, SetValue};

const NONE: Modifiers = Modifiers { reset: false, granular: false, fine: false };
const GRANULAR: Modifiers = Modifiers { reset: false, granular: true, fine: false };
const RESET: Modifiers = Modifiers { reset: true, granular: false, fine: false };
const TRACK: TrackGeometry = TrackGeometry { left: 0, width: 1000, scale_percent: 100 };

fn slider() -> ParamSlider {
    ParamSlider::new(SliderStyle::FromLeft, Vec::new())
}

fn quarters() -> SteppedParameter {
    SteppedParameter::new(4, 2).unwrap()
}

/// Every begin is closed by one end, with only sets between and none outside.
fn well_bracketed(cmds: &[GestureCommand]) -> bool {
    let mut open = false;
    for c in cmds {
        match c {
            Begin if !open => open = true,
            SetValue(_) if open => {}
            End if open => open = false,
            _ => return false,
        }
    }
    !open
}

#[test]
fn new_slider_is_idle() {
    let s = slider();
    assert!(!s.state.dragging);
    assert!(!s.state.text_input_active);
    assert_eq!(s.state.granular_drag_status, None);
    assert_eq!(s.state.scrolled_lines, 0);
}

#[test]
fn absolute_drag_sets_value_under_pointer() {
    let mut s = slider();
    assert_eq!(s.pointer_down(100, NONE, 500_000, 500_000), vec![Begin]);
    assert!(s.state.dragging);
    assert_eq!(s.pointer_move(250, NONE, 500_000, TRACK), vec![SetValue(250_000)]);
    assert_eq!(s.pointer_move(-40, NONE, 500_000, TRACK), vec![SetValue(0)]);
    assert_eq!(s.pointer_move(1500, NONE, 500_000, TRACK), vec![SetValue(SCALE)]);
    assert_eq!(s.pointer_up(), vec![End]);
    assert!(!s.state.dragging);
    assert_eq!(s.pointer_up(), vec![]);
}

#[test]
fn move_without_drag_does_nothing() {
    let mut s = slider();
    assert_eq!(s.pointer_move(250, NONE, 500_000, TRACK), vec![]);
}

#[test]
fn granular_drag_moves_slowly_from_anchor() {
    let mut s = slider();
    assert_eq!(s.pointer_down(500, GRANULAR, 500_000, 0), vec![Begin]);
    assert_eq!(s.state.granular_drag_status.unwrap().starting_value, 500_000);
    assert_eq!(s.pointer_move(600, GRANULAR, 510_000, TRACK), vec![SetValue(510_000)]);
    assert_eq!(s.pointer_move(300, GRANULAR, 510_000, TRACK), vec![SetValue(480_000)]);
    let dense = TrackGeometry { left: 0, width: 1000, scale_percent: 200 };
    assert_eq!(s.pointer_move(600, GRANULAR, 480_000, dense), vec![SetValue(520_000)]);
    assert_eq!(s.pointer_up(), vec![End]);
    assert_eq!(s.state.granular_drag_status, None);
}

#[test]
fn granular_toggled_mid_drag_anchors_on_first_move() {
    let mut s = slider();
    s.pointer_down(100, NONE, 0, 0);
    assert_eq!(s.state.granular_drag_status, None);
    assert_eq!(s.pointer_move(700, GRANULAR, 300_000, TRACK), vec![SetValue(300_000)]);
    let anchor = s.state.granular_drag_status.unwrap();
    assert_eq!((anchor.starting_x_coordinate, anchor.starting_value), (700, 300_000));
    assert_eq!(s.pointer_move(200, NONE, 300_000, TRACK), vec![SetValue(200_000)]);
    assert_eq!(s.state.granular_drag_status, None);
}

#[test]
fn reset_commits_default_without_dragging() {
    let mut s = slider();
    assert_eq!(s.pointer_down(100, RESET, 900_000, 500_000), vec![Begin, SetValue(500_000), End]);
    assert!(!s.state.dragging);
}

#[test]
fn reset_during_drag_reuses_open_gesture() {
    let mut s = slider();
    s.pointer_down(100, NONE, 0, 0);
    assert_eq!(s.pointer_down(100, RESET, 900_000, 500_000), vec![SetValue(500_000)]);
    assert!(s.state.dragging);
}

#[test]
fn second_pointer_down_does_not_begin_again() {
    let mut s = slider();
    assert_eq!(s.pointer_down(100, NONE, 0, 0), vec![Begin]);
    assert_eq!(s.pointer_down(100, NONE, 0, 0), vec![]);
    assert_eq!(s.pointer_up(), vec![End]);
}

#[test]
fn five_small_scrolls_make_one_step() {
    let p = quarters();
    let mut s = slider();
    let mut all = Vec::new();
    for _ in 0..5 {
        all.extend(s.scroll(&p, 300, false, 500_000));
    }
    assert_eq!(all, vec![Begin, SetValue(750_000), End]);
    assert_eq!(s.state.scrolled_lines, 500);
}

#[test]
fn scroll_below_one_line_opens_no_gesture() {
    let p = quarters();
    let mut s = slider();
    assert_eq!(s.scroll(&p, 999, false, 500_000), vec![]);
    assert_eq!(s.scroll(&p, -1998, false, 500_000), vec![]);
    assert_eq!(s.state.scrolled_lines, -999);
}

#[test]
fn scroll_many_lines_steps_repeatedly() {
    let p = quarters();
    let mut s = slider();
    assert_eq!(
        s.scroll(&p, -2500, false, 750_000),
        vec![Begin, SetValue(500_000), SetValue(250_000), End]
    );
    assert_eq!(s.state.scrolled_lines, -500);
    assert_eq!(
        s.scroll(&p, 3600, false, 250_000),
        vec![Begin, SetValue(500_000), SetValue(750_000), SetValue(SCALE), End]
    );
    assert_eq!(s.state.scrolled_lines, 100);
}

#[test]
fn scroll_during_drag_reuses_gesture() {
    let p = quarters();
    let mut s = slider();
    s.pointer_down(0, NONE, 0, 0);
    assert_eq!(s.scroll(&p, 1000, false, 0), vec![SetValue(250_000)]);
    assert_eq!(s.pointer_up(), vec![End]);
}

#[test]
fn arrow_keys_step_once_each() {
    let p = quarters();
    let mut s = slider();
    assert_eq!(s.step_key(&p, true, false, 500_000), vec![Begin, SetValue(750_000), End]);
    assert_eq!(s.step_key(&p, false, true, 500_000), vec![Begin, SetValue(250_000), End]);
    assert_eq!(s.step_key(&p, false, false, 0), vec![Begin, SetValue(0), End]);
}

#[test]
fn text_edit_commits_parsed_value() {
    let p = quarters();
    let mut s = slider();
    assert!(s.start_text_edit());
    assert!(!s.start_text_edit());
    assert_eq!(s.submit_text(&p, "3"), vec![Begin, SetValue(750_000), End]);
    assert!(!s.state.text_input_active);
}

#[test]
fn invalid_text_reverts_without_commit() {
    let p = quarters();
    let mut s = slider();
    s.start_text_edit();
    assert_eq!(s.submit_text(&p, "seven"), vec![]);
    assert!(!s.state.text_input_active);
    s.start_text_edit();
    assert_eq!(s.submit_text(&p, "9"), vec![]);
    s.start_text_edit();
    s.cancel_text_edit();
    assert!(!s.state.text_input_active);
}

#[test]
fn text_edit_blocks_drag_and_steps() {
    let p = quarters();
    let mut s = slider();
    s.start_text_edit();
    assert_eq!(s.pointer_down(10, NONE, 0, 0), vec![]);
    assert_eq!(s.pointer_down(10, RESET, 0, 500_000), vec![]);
    assert!(!s.state.dragging);
    assert_eq!(s.scroll(&p, 5000, false, 0), vec![]);
    assert_eq!(s.step_key(&p, true, false, 0), vec![]);
    assert_eq!(s.state.scrolled_lines, 0);
}

#[test]
fn text_edit_refused_while_dragging() {
    let mut s = slider();
    s.pointer_down(10, NONE, 0, 0);
    assert!(!s.start_text_edit());
    assert!(!s.state.text_input_active);
    let p = quarters();
    assert_eq!(s.handle_event(&p, &SliderEvent::EnterKey, 0, TRACK), vec![]);
    assert_eq!(s.handle_event(&p, &SliderEvent::DoubleClick, 0, TRACK), vec![]);
    assert!(!s.state.text_input_active);
    s.pointer_up();
    assert!(s.start_text_edit());
}

#[test]
fn simulated_trace_is_well_bracketed() {
    let mut p = quarters();
    let mut s = ParamSlider::new(SliderStyle::Centered, Vec::new());
    let events = vec![
        SliderEvent::PointerDown { x: 300, modifiers: NONE },
        SliderEvent::PointerMove { x: 420, modifiers: NONE },
        SliderEvent::Scroll { lines: 1000, modifiers: NONE },
        SliderEvent::StepUp { modifiers: NONE },
        SliderEvent::EnterKey,
        SliderEvent::PointerMove { x: 650, modifiers: GRANULAR },
        SliderEvent::PointerUp,
        SliderEvent::StepDown { modifiers: NONE },
        SliderEvent::Scroll { lines: -2400, modifiers: NONE },
        SliderEvent::PointerDown { x: 0, modifiers: RESET },
        SliderEvent::DoubleClick,
        SliderEvent::PointerDown { x: 0, modifiers: NONE },
        SliderEvent::TextSubmitted(String::from("1")),
        SliderEvent::PointerDown { x: 900, modifiers: GRANULAR },
        SliderEvent::PointerMove { x: 950, modifiers: GRANULAR },
        SliderEvent::DragCancelled,
        SliderEvent::EnterKey,
        SliderEvent::TextCancelled,
        SliderEvent::PointerUp,
    ];
    let mut all = Vec::new();
    for e in &events {
        let current = p.normalized_value();
        let cmds = s.handle_event(&p, e, current, TRACK);
        for c in &cmds {
            if let SetValue(v) = c {
                p.set_normalized_value(*v);
            }
        }
        all.extend(cmds);
    }
    assert!(well_bracketed(&all));
    assert!(all.contains(&Begin));
    assert!(!s.state.dragging);
}

#[test]
fn tick_positions_share_the_fill_mapping() {
    let ticks = vec![
        SliderTick { pos: 0, label: Some(String::from("min")), short: false },
        SliderTick { pos: 500_000, label: None, short: true },
        SliderTick { pos: 1_200_000, label: None, short: false },
    ];
    let s = ParamSlider::new(SliderStyle::FromLeft, ticks);
    let g = TrackGeometry { left: 10, width: 200, scale_percent: 100 };
    assert_eq!(s.tick_positions(g), vec![10, 110, 210]);
}

#[test]
fn fine_modifier_takes_smaller_steps() {
    let p = astra::PercentParameter::new(500_000, 10_000, 1_000).unwrap();
    let fine = Modifiers { reset: false, granular: false, fine: true };
    let mut s = slider();
    assert_eq!(
        s.handle_event(&p, &SliderEvent::Scroll { lines: 2000, modifiers: fine }, 500_000, TRACK),
        vec![Begin, SetValue(501_000), SetValue(502_000), End]
    );
    assert_eq!(
        s.handle_event(&p, &SliderEvent::StepDown { modifiers: NONE }, 500_000, TRACK),
        vec![Begin, SetValue(490_000), End]
    );
    assert_eq!(
        s.handle_event(&p, &SliderEvent::PointerDown { x: 0, modifiers: RESET }, 700_000, TRACK),
        vec![Begin, SetValue(500_000), End]
    );
}

#[test]
fn text_round_trip_through_the_slider() {
    let mut p = astra::PercentParameter::new(0, 10_000, 1_000).unwrap();
    let mut s = slider();
    assert_eq!(s.handle_event(&p, &SliderEvent::EnterKey, 0, TRACK), vec![]);
    assert!(s.state.text_input_active);
    let cmds = s.handle_event(&p, &SliderEvent::TextSubmitted(String::from("42%")), 0, TRACK);
    assert_eq!(cmds, vec![Begin, SetValue(420_000), End]);
    p.set_normalized_value(420_000);
    assert_eq!(p.format(p.normalized_value(), true), "42%");
}
