//! Bus-functional model of an AXI4 memory-mapped slave: burst addressing,
//! a shadow copy of memory, randomized stimulus and in-order response checks.

pub mod args;
pub mod burst;
pub mod bytes;
pub mod check;
pub mod driver;
pub mod payload;
pub mod range;
pub mod rng;
pub mod shadow;
pub mod stimulus;
