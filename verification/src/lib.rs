//! Smooth backlight transitions.
//!
//! The library holds what a transition is decided by and leaves the reading
//! and writing of files to its caller:
//!
//! - `brightness`: brightness levels, the requests and file contents they are
//!   read from, and the target of a run;
//! - `decimal`: the decimal text of a level, read and written;
//! - `percentage` and `rounding`: a percentage of the maximum, in the
//!   binary64 arithmetic that the conversion is defined in;
//! - `ramp`: the plan of a transition and its frames, one at a time;
//! - `discovery`: where the files of a backlight device are looked for;
//! - `error`: why a run cannot go on.

pub mod brightness;
pub mod decimal;
pub mod discovery;
pub mod error;
pub mod percentage;
pub mod ramp;
pub mod rounding;

pub use brightness::{resolve_target, Brightness};
pub use error::DimmerError;
pub use ramp::{set_brightness, Direction, Ramp, RampPlan, Step, FRAME_PAUSE_MILLIS};
