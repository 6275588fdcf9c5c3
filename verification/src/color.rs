//! Packing a color into the display's pixel word.

use crate::types::Rgb8;
use vstd::prelude::*;

verus! {

/// Packs three channel bytes into one `0x00RRGGBB` word.
pub fn rgb_from_u8(r: u8, g: u8, b: u8) -> (c: u32)
    ensures
        c == 0x1_0000 * (r as int) + 0x100 * (g as int) + (b as int),
{
    let (r32, g32, b32): (u32, u32, u32) = (r as u32, g as u32, b as u32);
    let c: u32 = r32 << 16u32 | g32 << 8u32 | b32;
    proof {
        assert(((r as u32) << 16u32 | (g as u32) << 8u32 | (b as u32)) == 0x1_0000 * (r as u32) + (
        0x100 * (g as u32) + (b as u32))) by (bit_vector);
    }
    c
}

/// Packs a color triple into one `0x00RRGGBB` word.
pub fn rgb_from_vec(rgb: Rgb8) -> (c: u32)
    ensures
        c == 0x1_0000 * (rgb.x as int) + 0x100 * (rgb.y as int) + (rgb.z as int),
{
    rgb_from_u8(rgb.x, rgb.y, rgb.z)
}

} // verus!
