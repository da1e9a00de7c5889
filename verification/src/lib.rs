//! Dense square-matrix arithmetic over 32-bit signed integers.
//!
//! A [`matrix::Matrix`] is an immutable square grid stored row-major in one
//! flat buffer.  The multiplication engine in [`engine`] computes the standard
//! dense product with wrap-around 32-bit arithmetic, either in one pass over
//! the whole output or row by row, so that a caller may hand the independent
//! row tasks to worker threads of its own.

pub mod engine;
mod entropy;
pub mod matrix;
