use astra::{GestureCommand, NormalizedParameter, ParamDropdown, ParamSwitch, SteppedParameter, SCALE};
use astra::decimal::{append_decimal, parse_decimal_at_most};
use GestureCommand::{Begin, End, SetValue};

#[test]
fn stepped_parameter_rejects_bad_shapes() {
    assert!(SteppedParameter::new(0, 0).is_none());
    assert!(SteppedParameter::new(4, 5).is_none());
    assert!(SteppedParameter::new(100_001, 0).is_none());
    assert!(SteppedParameter::new(100_000, 100_000).is_some());
}

#[test]
fn stepped_parameter_steps() {
    let p = SteppedParameter::new(4, 1).unwrap();
    assert_eq!(p.step_count(), Some(4));
    assert_eq!(p.default_normalized_value(), 250_000);
    assert_eq!(p.normalized_value(), 250_000);
    assert_eq!(p.next_step(250_000, false), 500_000);
    assert_eq!(p.next_step(SCALE, false), SCALE);
    assert_eq!(p.previous_step(260_000, true), 0);
    assert_eq!(p.previous_step(0, false), 0);
}

#[test]
fn stepped_parameter_text() {
    let p = SteppedParameter::new(4, 1).unwrap();
    assert_eq!(p.format(750_000, true), "3");
    assert_eq!(p.format(740_000, false), "3");
    assert_eq!(p.parse("3"), Some(750_000));
    assert_eq!(p.parse("4"), Some(SCALE));
    assert_eq!(p.parse("5"), None);
    assert_eq!(p.parse(""), None);
    assert_eq!(p.parse("-1"), None);
    assert_eq!(p.parse("1.5"), None);
}

#[test]
fn format_parse_format_is_stable() {
    for steps in [1u32, 3, 7, 100, 100_000] {
        let p = SteppedParameter::new(steps, 0).unwrap();
        for v in [0u32, 1, 123_456, 333_333, 500_000, 999_999, SCALE] {
            let text = p.format(v, true);
            let back = p.parse(&text).unwrap();
            assert_eq!(p.format(back, true), text);
        }
    }
}

#[test]
fn set_moves_to_nearest_step() {
    let mut p = SteppedParameter::new(4, 0).unwrap();
    p.set_normalized_value(620_000);
    assert_eq!(p.current_index, 2);
    assert_eq!(p.normalized_value(), 500_000);
    p.set_normalized_value(625_000);
    assert_eq!(p.current_index, 3);
}

#[test]
fn decimal_text_round_trip() {
    let mut out = String::from("n=");
    append_decimal(&mut out, 4_294_967_295);
    assert_eq!(out, "n=4294967295");
    let mut zero = String::new();
    append_decimal(&mut zero, 0);
    assert_eq!(zero, "0");
    assert_eq!(parse_decimal_at_most("0042", 100), Some(42));
    assert_eq!(parse_decimal_at_most("101", 100), None);
    assert_eq!(parse_decimal_at_most("99999999999999999999", u32::MAX), None);
    assert_eq!(parse_decimal_at_most("4294967295", u32::MAX), Some(u32::MAX));
    assert_eq!(parse_decimal_at_most("4x", 100), None);
}

#[test]
fn switch_flips_around_the_middle() {
    assert_eq!(ParamSwitch::toggle(600_000), vec![Begin, SetValue(0), End]);
    assert_eq!(ParamSwitch::toggle(500_000), vec![Begin, SetValue(SCALE), End]);
    assert_eq!(ParamSwitch::toggle(0), vec![Begin, SetValue(SCALE), End]);
}

#[test]
fn dropdown_lists_every_step() {
    assert_eq!(ParamDropdown::option_values(4), vec![0, 250_000, 500_000, 750_000, SCALE]);
    assert_eq!(ParamDropdown::option_values(3), vec![0, 333_333, 666_666, SCALE]);
    assert_eq!(ParamDropdown::option_values(0), vec![0]);
    assert_eq!(ParamDropdown::select(333_333), vec![Begin, SetValue(333_333), End]);
}

use astra::PercentParameter;

#[test]
fn percent_parameter_rejects_bad_shapes() {
    assert!(PercentParameter::new(SCALE + 1, 10, 1).is_none());
    assert!(PercentParameter::new(0, 10, 11).is_none());
    assert!(PercentParameter::new(0, SCALE + 1, 1).is_none());
    assert!(PercentParameter::new(SCALE, SCALE, 0).is_some());
}

#[test]
fn percent_parameter_steps_coarse_and_fine() {
    let p = PercentParameter::new(500_000, 10_000, 1_000).unwrap();
    assert_eq!(p.step_count(), None);
    assert_eq!(p.next_step(500_000, false), 510_000);
    assert_eq!(p.next_step(500_000, true), 501_000);
    assert_eq!(p.next_step(995_000, false), SCALE);
    assert_eq!(p.previous_step(500_000, true), 499_000);
    assert_eq!(p.previous_step(5_000, false), 0);
}

#[test]
fn percent_parameter_text() {
    let p = PercentParameter::new(0, 10_000, 1_000).unwrap();
    assert_eq!(p.format(505_000, true), "51%");
    assert_eq!(p.format(504_999, false), "50");
    assert_eq!(p.format(SCALE, true), "100%");
    assert_eq!(p.parse("51%"), Some(510_000));
    assert_eq!(p.parse("7"), Some(70_000));
    assert_eq!(p.parse("101%"), None);
    assert_eq!(p.parse("%"), None);
    assert_eq!(p.parse("5%%"), None);
    assert_eq!(p.parse(""), None);
}

#[test]
fn percent_format_parse_format_is_stable() {
    let p = PercentParameter::new(0, 10_000, 1_000).unwrap();
    for v in [0u32, 4_999, 5_000, 123_456, 995_000, SCALE] {
        for unit in [false, true] {
            let text = p.format(v, unit);
            let back = p.parse(&text).unwrap();
            assert_eq!(p.format(back, unit), text);
        }
    }
}
