//! Two-dimensional Perlin noise, laid out over the integer lattice.
//!
//! Every sample of a noise field is fixed by integers alone: the lattice cell
//! that owns it, the position of the sample inside that cell, and the
//! directions of the gradients at the cell's four corners. This crate computes
//! those integers and proves which sample ends up at which place of a buffer;
//! turning a sample into a floating-point value is left to the caller.

pub mod accumulator;
pub mod gradient;
pub mod sample;
pub mod tiler;

pub use accumulator::{Perlin, SampleGrid};
pub use gradient::{gradient_index, hash};
pub use sample::{corners_of, Corners, Sample};
pub use tiler::{noise_2d, square};
