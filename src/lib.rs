//! Parameter-control widget logic: fill geometry, drag, step and text-edit
//! controllers for a slider bound to a normalized parameter.
//!
//! Normalized values are fixed-point integers: `SCALE` units stand for `1.0`.
//! The controllers do not call the parameter's gesture interface themselves:
//! each event returns the begin / set / end commands to send to it.
pub mod normalized;
pub mod fill;
pub mod track;
pub mod gesture;
pub mod decimal;
pub mod parameter;
pub mod slider;
pub mod widgets;

pub use normalized::SCALE;
pub use fill::{SliderStyle, fill_start_delta};
pub use track::TrackGeometry;
pub use gesture::GestureCommand;
pub use parameter::{NormalizedParameter, PercentParameter, SteppedParameter};
pub use slider::{GranularDragStatus, Modifiers, ParamSlider, SliderEvent, SliderState, SliderTick};
pub use widgets::{ParamDropdown, ParamSwitch};
