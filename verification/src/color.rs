//! Packing of display colors into the framebuffer's integer pixel format.
use vstd::prelude::*;

verus! {

/// The packed integer form of an 8-bit-per-channel color: red in the third
/// byte, green in the second, blue in the lowest.
pub open spec fn spec_pack_rgb(r: int, g: int, b: int) -> int {
    r * 0x10000 + g * 0x100 + b
}

/// Packs three 8-bit channels into one framebuffer pixel.
pub fn pack_rgb(r: u8, g: u8, b: u8) -> (c: u32)
    ensures
        c == spec_pack_rgb(r as int, g as int, b as int),
        c <= 0xFFFFFF,
{
    (r as u32) * 0x10000 + (g as u32) * 0x100 + (b as u32)
}

} // verus!
