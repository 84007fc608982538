//! Packing colours into 32-bit pixels and taking them apart again.
//!
//! A pixel holds red in its lowest byte, then green, then blue, and alpha
//! in its highest byte.

use vstd::prelude::*;

verus! {

/// The pixel that holds the four channels.
pub open spec fn packed(r: u8, g: u8, b: u8, a: u8) -> u32 {
    (r + g * 0x100 + b * 0x1_0000 + a * 0x100_0000) as u32
}

/// The four channels of a pixel: red, green, blue, alpha.
pub open spec fn unpacked(color: u32) -> (u8, u8, u8, u8) {
    (
        (color % 0x100) as u8,
        (color / 0x100 % 0x100) as u8,
        (color / 0x1_0000 % 0x100) as u8,
        (color / 0x100_0000) as u8,
    )
}

/// Taking a packed pixel apart gives back the channels it was packed from.
pub proof fn lemma_unpack_packed(r: u8, g: u8, b: u8, a: u8)
    ensures
        unpacked(packed(r, g, b, a)) == (r, g, b, a),
{
    let c = packed(r, g, b, a);
    assert(c == r + g * 0x100 + b * 0x1_0000 + a * 0x100_0000);
    assert(c % 0x100 == r && c / 0x100 % 0x100 == g && c / 0x1_0000 % 0x100 == b && c
        / 0x100_0000 == a) by (bit_vector)
        requires
            c == r + g * 0x100 + b * 0x1_0000 + a * 0x100_0000,
    ;
}

/// Packing the channels of a pixel gives back the pixel.
pub proof fn lemma_pack_unpacked(color: u32)
    ensures
        ({
            let (r, g, b, a) = unpacked(color);
            packed(r, g, b, a) == color
        }),
{
}

/// A colour by its channels. Without an alpha channel it is opaque.
#[derive(Debug, Clone, Copy, PartialEq, Eq)]
pub struct Color {
    pub r: u8,
    pub g: u8,
    pub b: u8,
    pub a: Option<u8>,
}

impl Color {
    /// The alpha channel, 255 where none is given.
    pub open spec fn alpha(&self) -> u8 {
        match self.a {
            Some(alpha) => alpha,
            None => 255,
        }
    }

    /// The pixel of this colour.
    pub open spec fn pixel(&self) -> u32 {
        packed(self.r, self.g, self.b, self.alpha())
    }

    /// Packs the colour into a pixel.
    pub fn new(&self) -> (color: u32)
        ensures
            color == self.pixel(),
            unpacked(color) == (self.r, self.g, self.b, self.alpha()),
    {
        let alpha: u8 = match self.a {
            Some(alpha) => alpha,
            None => 255,
        };
        let r = self.r;
        let g = self.g;
        let b = self.b;
        let color = (alpha as u32) << 24 | (b as u32) << 16 | (g as u32) << 8 | (r as u32);
        proof {
            assert(color == r + g * 0x100 + b * 0x1_0000 + alpha * 0x100_0000) by (bit_vector)
                requires
                    color == (alpha as u32) << 24 | (b as u32) << 16 | (g as u32) << 8 | (r as u32),
            ;
            lemma_unpack_packed(r, g, b, alpha);
        }
        color
    }
}

/// Takes a pixel apart into red, green, blue and alpha.
pub fn unpack_color(color: &u32) -> (channels: (u8, u8, u8, u8))
    ensures
        channels == unpacked(*color),
{
    let c: u32 = *color;
    assert((c >> 0 & 255) == c % 0x100) by (bit_vector);
    assert((c >> 8 & 255) == c / 0x100 % 0x100) by (bit_vector);
    assert((c >> 16 & 255) == c / 0x1_0000 % 0x100) by (bit_vector);
    assert((c >> 24 & 255) == c / 0x100_0000) by (bit_vector);
    let r = (c >> 0 & 255) as u8;
    let g = (c >> 8 & 255) as u8;
    let b = (c >> 16 & 255) as u8;
    let a = (c >> 24 & 255) as u8;
    (r, g, b, a)
}

/// The colour in which a map cell is drawn: red for `'1'`, off-white for
/// `'2'`, black for `'3'`, gray for every other cell.
pub open spec fn map_color(value: u8) -> u32 {
    if value == 49 {
        packed(255, 0, 0, 255)
    } else if value == 50 {
        packed(255, 255, 200, 255)
    } else if value == 51 {
        packed(0, 0, 0, 255)
    } else {
        packed(128, 128, 128, 255)
    }
}

/// The pixel in which the map cell `value` is drawn.
pub fn get_color_from_map_value(value: u8) -> (color: u32)
    ensures
        color == map_color(value),
{
    match value {
        49 => get_red(),
        50 => get_off_white(),
        51 => get_black(),
        _ => get_gray(),
    }
}

/// Opaque white.
pub fn get_white() -> (color: u32)
    ensures
        color == packed(255, 255, 255, 255),
        color == 0xFFFF_FFFF,
{
    Color { r: 255, g: 255, b: 255, a: None }.new()
}

/// Opaque off-white.
pub fn get_off_white() -> (color: u32)
    ensures
        color == packed(255, 255, 200, 255),
        color == 0xFFC8_FFFF,
{
    Color { r: 255, g: 255, b: 200, a: None }.new()
}

/// Opaque gray.
pub fn get_gray() -> (color: u32)
    ensures
        color == packed(128, 128, 128, 255),
        color == 0xFF80_8080,
{
    Color { r: 128, g: 128, b: 128, a: None }.new()
}

/// Opaque red.
pub fn get_red() -> (color: u32)
    ensures
        color == packed(255, 0, 0, 255),
        color == 0xFF00_00FF,
{
    Color { r: 255, g: 0, b: 0, a: None }.new()
}

/// Opaque black.
pub fn get_black() -> (color: u32)
    ensures
        color == packed(0, 0, 0, 255),
        color == 0xFF00_0000,
{
    Color { r: 0, g: 0, b: 0, a: None }.new()
}

} // verus!
