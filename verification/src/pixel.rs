//! Packed `0xRRGGBB` pixels.

use vstd::prelude::*;

verus! {

/// The value of a packed `0xRRGGBB` cell with the given channels.
pub open spec fn packed_rgb(r: u8, g: u8, b: u8) -> int {
    r as int * 65536 + g as int * 256 + b as int
}

/// Packs three 8-bit channels into one `0xRRGGBB` cell.
pub fn from_u8_rgb(r: u8, g: u8, b: u8) -> (cell: u32)
    ensures
        cell == packed_rgb(r, g, b),
        cell <= 0xFF_FFFF,
{
    let cell: u32 = ((r as u32) << 16) | ((g as u32) << 8) | (b as u32);
    assert(((r as u32) << 16) | ((g as u32) << 8) | (b as u32) == (r as u32) * 65536 + (g as u32)
        * 256 + (b as u32)) by (bit_vector);
    cell
}

} // verus!
