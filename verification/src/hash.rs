//! The seeded cell hasher: an integer cell coordinate and a global seed are
//! mixed into a well-distributed 64-bit value, and from it into the cell's
//! jittered center.
//!
//! Each of the three inputs is multiplied by its own large odd constant and
//! the products are combined through a rotate-xor cascade, so that every
//! input bit influences every output bit.  A negative coordinate enters as
//! the two's-complement bit pattern of the signed value, which keeps the
//! mixing bijective per axis instead of mirroring it.

use crate::types::{Cell2, CenterFrac};
use vstd::prelude::*;

verus! {

/// Odd mixing constant for the x coordinate.
pub const MIX_X: u64 = 0xa076_1d64_78bd_642f;

/// Odd mixing constant for the y coordinate.
pub const MIX_Y: u64 = 0xe703_7ed1_a0b4_28db;

/// Odd mixing constant for the seed.
pub const MIX_SEED: u64 = 0x8ebc_6af0_9c88_c6e3;

/// Denominator of a center fraction: numerators are drawn from 32-bit
/// windows of the hash, so a center component is `numerator / 2^32` of a
/// cell and always lies in `[0, 1)`.
pub const CENTER_ONE: u64 = 0x1_0000_0000;

/// `x` rotated left by `n` bits.
pub open spec fn spec_rotl64(x: u64, n: u64) -> u64 {
    (x << n) | (x >> ((64 - n) as u64))
}

/// The two's-complement bit pattern of a signed coordinate.
pub open spec fn spec_bits_of(x: i64) -> u64 {
    x as u64
}

/// The mixed 64-bit hash of a cell coordinate and a seed.
pub open spec fn spec_cell_hash(cell: Cell2, seed: u64) -> u64 {
    let x0 = vstd::wrapping::u64_specs::wrapping_mul(spec_bits_of(cell.x), MIX_X);
    let y0 = vstd::wrapping::u64_specs::wrapping_mul(spec_bits_of(cell.y), MIX_Y);
    let s0 = vstd::wrapping::u64_specs::wrapping_mul(seed, MIX_SEED);
    let x1 = x0 ^ spec_rotl64(y0, 25);
    let s1 = s0 ^ spec_rotl64(x1, 17);
    let y1 = y0 ^ spec_rotl64(s0, 47);
    s1 ^ y1
}

/// Numerator of the x component of a cell's center: a middle 32-bit window
/// of the hash.
pub open spec fn spec_center_x(h: u64) -> u32 {
    (h >> 12) as u32
}

/// Numerator of the y component of a cell's center: the top 32-bit window
/// of the hash.
pub open spec fn spec_center_y(h: u64) -> u32 {
    (h >> 32) as u32
}

/// The center of a cell, as numerators over `CENTER_ONE`.
pub open spec fn spec_cell_center(cell: Cell2, seed: u64) -> CenterFrac {
    CenterFrac {
        x: spec_center_x(spec_cell_hash(cell, seed)),
        y: spec_center_y(spec_cell_hash(cell, seed)),
    }
}

/// Hashes the seed and the cell coordinate into one well-distributed value.
pub fn cell_hash(cell: Cell2, seed: u64) -> (h: u64)
    ensures
        h == spec_cell_hash(cell, seed),
{
    let x0: u64 = (cell.x as u64).wrapping_mul(MIX_X);
    let y0: u64 = (cell.y as u64).wrapping_mul(MIX_Y);
    let s0: u64 = seed.wrapping_mul(MIX_SEED);
    let x1: u64 = x0 ^ ((y0 << 25u64) | (y0 >> 39u64));
    let s1: u64 = s0 ^ ((x1 << 17u64) | (x1 >> 47u64));
    let y1: u64 = y0 ^ ((s0 << 47u64) | (s0 >> 17u64));
    s1 ^ y1
}

/// The center of a worley cell, relative to the cell's own unit square:
/// two independent 32-bit windows of the hash become the two axes.
pub fn cell_center(cell: Cell2, seed: u64) -> (c: CenterFrac)
    ensures
        c == spec_cell_center(cell, seed),
{
    let h: u64 = cell_hash(cell, seed);
    let x: u32 = (h >> 12u64) as u32;
    let y: u32 = (h >> 32u64) as u32;
    CenterFrac { x, y }
}

/// Both components of every cell center lie strictly inside the unit
/// range: the numerator is below the denominator `CENTER_ONE`.
pub proof fn lemma_center_in_unit_range(cell: Cell2, seed: u64)
    ensures
        0 <= spec_cell_center(cell, seed).x < CENTER_ONE,
        0 <= spec_cell_center(cell, seed).y < CENTER_ONE,
{
}

/// The hasher and the center derivation are pure functions of the cell and
/// the seed: any two results of either, for the same inputs, are equal.
pub proof fn lemma_hash_deterministic(cell: Cell2, seed: u64, h1: u64, h2: u64)
    requires
        h1 == spec_cell_hash(cell, seed),
        h2 == spec_cell_hash(cell, seed),
    ensures
        h1 == h2,
{
}

} // verus!
