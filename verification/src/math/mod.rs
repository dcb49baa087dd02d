pub mod cross;
pub mod misc;
pub mod trigonometry;

pub use cross::{cross, cross_launch, CrossLaunch, CrossProduct};
pub use misc::{check_clip_fits, clip, ClipInputs};
pub use trigonometry::{cos_types, sin_types};
