//! Colors for wall slices, and packing of color channels into `u32` words.

use vstd::prelude::*;

verus! {

/// An 8-bit-per-channel color, the value handed to the pixel sink.
#[derive(Clone, Copy, Debug, PartialEq, Eq, Structural)]
pub struct Rgb {
    pub r: u8,
    pub g: u8,
    pub b: u8,
}

/// Role of a texture in a material; kept for callers that label the images
/// they upload.
pub enum TextureType {
    Diffuse,
    Normal,
}

/// Channels packed as `0xRRGGBBAA`.
pub open spec fn pack_rgba_spec(r: u8, g: u8, b: u8, a: u8) -> u32 {
    ((r as u32) << 24) | ((g as u32) << 16) | ((b as u32) << 8) | (a as u32)
}

/// Packs four channels into a `0xRRGGBBAA` word.
pub fn pack_rgba(r: u8, g: u8, b: u8, a: u8) -> (c: u32)
    ensures
        c == pack_rgba_spec(r, g, b, a),
{
    let red: u32 = (r as u32) << 24;
    let green: u32 = (g as u32) << 16;
    let blue: u32 = (b as u32) << 8;
    let alpha: u32 = a as u32;
    red | green | blue | alpha
}

/// Packs three channels into a `0xRRGGBBAA` word with full alpha.
pub fn pack_rgb(r: u8, g: u8, b: u8) -> (c: u32)
    ensures
        c == pack_rgba_spec(r, g, b, 255),
{
    pack_rgba(r, g, b, 255)
}

/// Splits a `0xRRGGBBAA` word back into its four channels.
pub fn unpack_rgba(color: u32) -> (channels: (u8, u8, u8, u8))
    ensures
        channels.0 == (color >> 24) as u8,
        channels.1 == (color >> 16) as u8,
        channels.2 == (color >> 8) as u8,
        channels.3 == color as u8,
{
    let r = (color >> 24) as u8;
    let g = (color >> 16) as u8;
    let b = (color >> 8) as u8;
    let a = color as u8;
    (r, g, b, a)
}

/// Splits a `0xRRGGBBAA` word into its three color channels.
pub fn unpack_rgb(color: u32) -> (channels: (u8, u8, u8))
    ensures
        channels.0 == (color >> 24) as u8,
        channels.1 == (color >> 16) as u8,
        channels.2 == (color >> 8) as u8,
{
    let (r, g, b, _) = unpack_rgba(color);
    (r, g, b)
}

/// Packing four channels and unpacking the word gives the channels back.
pub proof fn lemma_pack_unpack(r: u8, g: u8, b: u8, a: u8)
    ensures
        (pack_rgba_spec(r, g, b, a) >> 24) as u8 == r,
        (pack_rgba_spec(r, g, b, a) >> 16) as u8 == g,
        (pack_rgba_spec(r, g, b, a) >> 8) as u8 == b,
        pack_rgba_spec(r, g, b, a) as u8 == a,
{
    assert(((((r as u32) << 24) | ((g as u32) << 16) | ((b as u32) << 8) | (a as u32)) >> 24) as u8
        == r) by (bit_vector);
    assert(((((r as u32) << 24) | ((g as u32) << 16) | ((b as u32) << 8) | (a as u32)) >> 16) as u8
        == g) by (bit_vector);
    assert(((((r as u32) << 24) | ((g as u32) << 16) | ((b as u32) << 8) | (a as u32)) >> 8) as u8
        == b) by (bit_vector);
    assert((((r as u32) << 24) | ((g as u32) << 16) | ((b as u32) << 8) | (a as u32)) as u8
        == a) by (bit_vector);
}

/// Color shown for a wall cell value: a fixed palette keyed by the small
/// integers used in maps, with white for every other value.
pub open spec fn palette_spec(value: u8) -> Rgb {
    if value == 1 {
        Rgb { r: 255, g: 0, b: 0 }
    } else if value == 2 {
        Rgb { r: 0, g: 255, b: 0 }
    } else if value == 3 {
        Rgb { r: 0, g: 0, b: 255 }
    } else if value == 4 {
        Rgb { r: 218, g: 112, b: 214 }
    } else {
        Rgb { r: 255, g: 255, b: 255 }
    }
}

/// Every channel halved, the shading applied to walls hit through a
/// horizontal grid line.
pub open spec fn half_channels(c: Rgb) -> Rgb {
    Rgb { r: (c.r / 2) as u8, g: (c.g / 2) as u8, b: (c.b / 2) as u8 }
}

/// Color of a wall slice: the palette color of the cell value, halved when
/// `side` is 1 so the two wall orientations are shaded apart.
pub open spec fn wall_color_spec(value: u8, side: u8) -> Rgb {
    if side == 1 {
        half_channels(palette_spec(value))
    } else {
        palette_spec(value)
    }
}

/// Computes [`wall_color_spec`].
pub fn wall_color(value: u8, side: u8) -> (c: Rgb)
    ensures
        c == wall_color_spec(value, side),
{
    let base = match value {
        1 => Rgb { r: 255, g: 0, b: 0 },
        2 => Rgb { r: 0, g: 255, b: 0 },
        3 => Rgb { r: 0, g: 0, b: 255 },
        4 => Rgb { r: 218, g: 112, b: 214 },
        _ => Rgb { r: 255, g: 255, b: 255 },
    };
    if side == 1 {
        Rgb { r: base.r / 2, g: base.g / 2, b: base.b / 2 }
    } else {
        base
    }
}

/// Two hits on the same wall value that differ only in `side` get colors
/// where every channel of the shaded one is exactly half (rounded down) of
/// the unshaded one.
pub proof fn lemma_side_shading(value: u8)
    ensures
        wall_color_spec(value, 1).r == wall_color_spec(value, 0).r / 2,
        wall_color_spec(value, 1).g == wall_color_spec(value, 0).g / 2,
        wall_color_spec(value, 1).b == wall_color_spec(value, 0).b / 2,
{
}

} // verus!
