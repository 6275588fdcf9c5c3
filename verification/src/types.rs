//! Plain data carried through the field evaluator.

use vstd::prelude::*;

verus! {

/// An integer grid-cell coordinate at some level of refinement.
#[derive(Clone, Copy, PartialEq, Eq, Structural, Debug)]
pub struct Cell2 {
    pub x: i64,
    pub y: i64,
}

/// A position or a per-axis cell size, in integer world units.  Callers pick
/// the resolution of a world unit; the evaluator never rescales it.
#[derive(Clone, Copy, PartialEq, Eq, Structural, Debug)]
pub struct Vec2i {
    pub x: i64,
    pub y: i64,
}

/// A cell's jittered center, relative to the cell's own square: each axis is
/// a fraction with numerator below `2^32` over the denominator `2^32`, so the
/// center always lies inside the half-open unit square of its cell.
#[derive(Clone, Copy, PartialEq, Eq, Structural, Debug)]
pub struct CenterFrac {
    pub x: u32,
    pub y: u32,
}

/// One query's answer: the nearest cell and the floor of the Euclidean
/// distance to its center, in the caller's world units.
#[derive(Clone, Copy, PartialEq, Eq, Structural, Debug)]
pub struct FieldSample {
    pub cell: Cell2,
    pub dist: u64,
}

/// Invalid-parameter domain errors: the evaluator fails fast on a degenerate
/// grid instead of producing a meaningless field.
#[derive(Clone, Copy, PartialEq, Eq, Structural, Debug)]
pub enum NoiseError {
    /// A cell size was given with a component at or below zero.
    NonPositiveCellSize,
    /// A cell count was given with a component at or below zero.
    NonPositiveCellCount,
    /// The growth factor of the continuous policy must be at least two.
    GrowthTooSmall,
    /// Refining the cell size through every requested depth level reached an
    /// empty cell, so the finest level would be degenerate.
    CellSizeUnderflow,
    /// Doubling the cell count through every requested depth level left the
    /// resolution of the normalised unit square.
    ResolutionOverflow,
}

/// A position in a pixel buffer: column and row.
#[derive(Clone, Copy, PartialEq, Eq, Structural, Debug)]
pub struct UVec2 {
    pub x: usize,
    pub y: usize,
}

/// A color triple of channel bytes, in the order red, green, blue.
#[derive(Clone, Copy, PartialEq, Eq, Structural, Debug)]
pub struct Rgb8 {
    pub x: u8,
    pub y: u8,
    pub z: u8,
}

} // verus!
