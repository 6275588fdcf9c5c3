//! The pixel buffer and color packing around the field.

use worley_field::buffer::Buffer;
use worley_field::color::{rgb_from_u8, rgb_from_vec};
use worley_field::types::{Rgb8, UVec2};

#[test]
fn buffer_set_wraps_columns_and_drops_far_rows() {
    let mut b: Buffer<u32> = Buffer {
        buff: vec![0; 8],
        width: 4,
        height: 2,
    };
    b.set(UVec2 { x: 5, y: 1 }, 9);
    assert_eq!(b.buff[5], 9);
    assert_eq!(b.get(UVec2 { x: 1, y: 1 }), 9);
    // A row beyond the rectangle is ignored.
    b.set(UVec2 { x: 0, y: 7 }, 1);
    assert_eq!(b.buff, vec![0, 0, 0, 0, 0, 9, 0, 0]);
}

#[test]
fn buffer_reset_fills_the_rectangle() {
    let mut b: Buffer<u8> = Buffer {
        buff: Vec::new(),
        width: 3,
        height: 2,
    };
    b.reset(7);
    assert_eq!(b.buff, vec![7; 6]);
    assert_eq!(b.get(UVec2 { x: 2, y: 1 }), 7);
}

#[test]
fn color_packs_into_one_word() {
    assert_eq!(rgb_from_u8(1, 2, 3), 0x010203);
    assert_eq!(rgb_from_u8(255, 255, 255), 0x00ff_ffff);
    assert_eq!(rgb_from_vec(Rgb8 { x: 0x12, y: 0x34, z: 0x56 }), 0x123456);
}
