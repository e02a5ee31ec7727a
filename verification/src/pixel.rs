//! Colour-channel helpers on 8-bit RGBA pixels.

use vstd::prelude::*;

verus! {

/// The value `x` saturated to the range of a `u8`.
pub open spec fn saturate_u8(x: int) -> int {
    if x > 255 {
        255
    } else {
        x
    }
}

/// Narrows a wide channel value to 8 bits, saturating at 255.
pub fn u16_to_u8(x: u16) -> (r: u8)
    ensures
        r == saturate_u8(x as int),
        x <= 255 ==> r == x,
        x > 255 ==> r == 255,
{
    if x > 255 {
        255
    } else {
        x as u8
    }
}

/// A fully opaque grey pixel whose three colour channels are `val`
/// saturated to 8 bits.
pub fn val_to_pixel(val: u16) -> (px: [u8; 4])
    ensures
        px@ == seq![
            saturate_u8(val as int) as u8,
            saturate_u8(val as int) as u8,
            saturate_u8(val as int) as u8,
            255u8,
        ],
{
    let safe_val = u16_to_u8(val);
    [safe_val, safe_val, safe_val, 255]
}

/// The brightness that a ripple buffer reads back from a pixel: red plus
/// green plus a third of blue, saturated to 8 bits. The alpha channel is
/// ignored.
pub fn rgba_to_u8(rgba: [u8; 4]) -> (v: u8)
    ensures
        v == saturate_u8(rgba@[0] + rgba@[1] + rgba@[2] / 3),
{
    let r = rgba[0];
    let g = rgba[1];
    let b = rgba[2];
    let val = r as u16 + g as u16 + b as u16 / 3;
    u16_to_u8(val)
}

} // verus!
