//! Keyline pattern geometry on a fixed-point grid, and the state machine of
//! the loop that keeps the pattern in step with a watched file.
//!
//! A coordinate is a whole number of grid steps; one step is a hundred
//! thousandth of a distance unit, and a coordinate is an `i32`, so the grid
//! reaches some 21 474 distance units to either side of the origin. Every
//! function here is total on the values its contract admits and is proved
//! against a mathematical model of paths as sequences of grid points.

pub mod clip;
pub mod geometry;
pub mod offsets;
pub mod pipeline;
pub mod resample;
pub mod watch;
