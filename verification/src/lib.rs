//! Control logic for a thermoelectric (TEC) stage, its cooling fan, the
//! camera that records an experiment, and the terminal monitor that drives
//! them: what is written to the PWM sysfs files, how device lines are framed
//! and parsed, which command follows which in an experiment run, and how the
//! monitor reacts to keys.

pub mod camera;
pub mod experiment;
pub mod fan;
pub mod history;
pub mod number;
pub mod tec;
pub mod text;
pub mod ui;
