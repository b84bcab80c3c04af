//! Colours as GDI+ takes them: `0xAARRGGBB`.
use vstd::prelude::*;

verus! {

pub const COLOR_GOOD: u32 = 0xFF3D_DC84;
pub const COLOR_WARN: u32 = 0xFFFF_B648;
pub const COLOR_BAD: u32 = 0xFFFF_5F56;
pub const COLOR_OFF: u32 = 0xFF7C_8798;

/// A colour from its alpha, red, green and blue bytes.
pub open spec fn argb_value(a: u8, r: u8, g: u8, b: u8) -> u32 {
    (a as int * 0x1000000 + r as int * 0x10000 + g as int * 0x100 + b as int) as u32
}

pub fn argb(a: u8, r: u8, g: u8, b: u8) -> (c: u32)
    ensures
        c == argb_value(a, r, g, b),
        c as int == a as int * 0x1000000 + r as int * 0x10000 + g as int * 0x100 + b as int,
{
    let c = ((a as u32) << 24u32) | ((r as u32) << 16u32) | ((g as u32) << 8u32) | b as u32;
    assert(c == (a as u32) * 0x1000000 + (r as u32) * 0x10000 + (g as u32) * 0x100 + b as u32) by (bit_vector)
        requires
            c == ((a as u32) << 24u32) | ((r as u32) << 16u32) | ((g as u32) << 8u32) | b as u32,
    ;
    c
}

/// A GDI+ colour 0xAARRGGBB as a GDI COLORREF 0x00BBGGRR: the alpha byte
/// dropped, red and blue swapped.
pub open spec fn colorref_of(color: u32) -> int {
    (color % 0x100) * 0x10000 + ((color / 0x100) % 0x100) * 0x100 + (color / 0x10000) % 0x100
}

pub fn argb_to_gdi(color: u32) -> (r: u32)
    ensures
        r == colorref_of(color),
{
    let red = (color >> 16u32) & 0xFFu32;
    let green = (color >> 8u32) & 0xFFu32;
    let blue = color & 0xFFu32;
    let r = (blue << 16u32) | (green << 8u32) | red;
    assert(r == (color % 0x100) * 0x10000 + ((color / 0x100) % 0x100) * 0x100 + (color / 0x10000) % 0x100)
        by (bit_vector)
        requires
            red == (color >> 16u32) & 0xFFu32,
            green == (color >> 8u32) & 0xFFu32,
            blue == color & 0xFFu32,
            r == (blue << 16u32) | (green << 8u32) | red,
    ;
    r
}

} // verus!
