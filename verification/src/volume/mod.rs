pub mod percentage;
pub mod ramp;
pub mod setter;

pub use percentage::{Percentage, PercentageError};
pub use ramp::VolumeRamp;
pub use setter::VolumeError;
