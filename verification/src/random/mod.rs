pub mod generator;
pub mod iota;
pub mod threefry;

pub use generator::{Generator, RandomFloats, ThreeFry2x32};
pub use iota::iota_op;
pub use threefry::{threefry2x32_block, threefry2x32_op, threefry_dispatch_size};
