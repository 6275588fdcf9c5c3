//! A deterministic, seeded cellular ("Worley") distance field, composed
//! hierarchically across spatial frequencies.
//!
//! All geometry is exact integer arithmetic: sample positions and cell sizes
//! are plain integer world units, a cell's jittered center is a pair of
//! 32-bit fractions of its own cell, and distances are the floor of the
//! Euclidean length, computed with a verified integer square root.

pub mod math;
pub mod types;
pub mod hash;
pub mod worley;
pub mod hier;
pub mod grid;
pub mod buffer;
pub mod color;
