pub mod misc;

pub use misc::any;
