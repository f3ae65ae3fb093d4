//! Piecewise-linear color gradients over exact rational positions.
//!
//! A gradient is computed by splitting a sequence of anchor colors into
//! three per-channel value sequences, then sampling each channel with a
//! piecewise-linear evaluator at one hundred evenly spaced positions.

pub mod color;
pub mod driver;
pub mod interp;
pub mod rat;
