//! Verified core of a multi-tap delay: the circular history buffer, the lane
//! link/detach model, the engine's tap-slot lifecycle, the exact note-division
//! lengths used for tempo sync, and tick placement on the time axis.
//!
//! Samples, gains and pans are left generic here; the floating-point signal
//! path (interpolation, pan law, smoothing, limiting) is built on top of these
//! pieces by the plugin.

pub mod axis;
pub mod buffer;
pub mod lane;
pub mod roster;
pub mod timing;

pub use buffer::DelayLine;
pub use lane::Lane;
pub use roster::TapRoster;
pub use timing::{Beats, NoteDivision};
