//! Semantic colors and their encoding into the byte layout of a framebuffer pixel.
use vstd::prelude::*;

verus! {

/// A color tagged with the channel order its components were given in.
#[derive(Clone, Copy, Debug, PartialEq, Eq, Structural)]
pub enum Color {
    RGB(usize, usize, usize),
    BGR(usize, usize, usize),
    GRAYSCALE(usize),
}

/// Why a framebuffer or console operation could not be carried out.
#[derive(Clone, Copy, Debug, PartialEq, Eq, Structural)]
pub enum GraphicsError {
    /// The surface's bytes-per-pixel has no encoding (or, for reads, no decoding).
    UnsupportedFormat,
    /// The font has no bitmap for the character.
    GlyphNotFound,
    /// A coordinate or region lies outside the surface.
    OutOfBounds,
}

/// A channel value truncated to one byte.
pub open spec fn byte_of(v: int) -> u8 {
    (v % 256) as u8
}

/// Bytes-per-pixel values that can be written.
pub open spec fn is_supported_bpp(bpp: int) -> bool {
    bpp == 1 || bpp == 3 || bpp == 4
}

/// Bytes-per-pixel values that can also be read back.
pub open spec fn is_decodable_bpp(bpp: int) -> bool {
    bpp == 1 || bpp == 3
}

/// The intensity stored for a one-byte pixel: the gray value, or the truncated mean of the channels.
pub open spec fn intensity(c: Color) -> u8 {
    match c {
        Color::GRAYSCALE(v) => byte_of(v as int),
        Color::RGB(r, g, b) => byte_of((r + g + b) / 3),
        Color::BGR(b, g, r) => byte_of((r + g + b) / 3),
    }
}

/// The (red, green, blue) bytes of a color.
pub open spec fn channels(c: Color) -> (u8, u8, u8) {
    match c {
        Color::RGB(r, g, b) => (byte_of(r as int), byte_of(g as int), byte_of(b as int)),
        Color::BGR(b, g, r) => (byte_of(r as int), byte_of(g as int), byte_of(b as int)),
        Color::GRAYSCALE(v) => (byte_of(v as int), byte_of(v as int), byte_of(v as int)),
    }
}

/// The bytes of one pixel holding `c` on a surface with `bpp` bytes per pixel:
/// one intensity byte; red, green, blue; or a little-endian word `0x00RRGGBB`.
pub open spec fn encode(c: Color, bpp: int) -> Seq<u8> {
    let (r, g, b) = channels(c);
    if bpp == 1 {
        seq![intensity(c)]
    } else if bpp == 3 {
        seq![r, g, b]
    } else if bpp == 4 {
        seq![b, g, r, 0u8]
    } else {
        Seq::empty()
    }
}

/// The color read back from the bytes of one pixel (one byte, or red, green, blue).
pub open spec fn decode(bytes: Seq<u8>) -> Color {
    if bytes.len() == 1 {
        Color::GRAYSCALE(bytes[0] as usize)
    } else {
        Color::RGB(bytes[0] as usize, bytes[1] as usize, bytes[2] as usize)
    }
}

/// Colors that survive a write and a read unchanged at `bpp`.
pub open spec fn round_trips(c: Color, bpp: int) -> bool {
    match c {
        Color::GRAYSCALE(v) => bpp == 1 && v < 256,
        Color::RGB(r, g, b) => bpp == 3 && r < 256 && g < 256 && b < 256,
        Color::BGR(_, _, _) => false,
    }
}

fn to_byte(v: usize) -> (r: u8)
    ensures
        r == byte_of(v as int),
{
    (v % 256) as u8
}

/// Encodes `color` for a surface with `bpp` bytes per pixel.
pub fn encode_color(color: Color, bpp: usize) -> (r: Result<Vec<u8>, GraphicsError>)
    ensures
        is_supported_bpp(bpp as int) ==> (r matches Ok(v) && v@ == encode(color, bpp as int)),
        !is_supported_bpp(bpp as int) ==> r == Err::<Vec<u8>, GraphicsError>(
            GraphicsError::UnsupportedFormat,
        ),
{
    if bpp != 1 && bpp != 3 && bpp != 4 {
        return Err(GraphicsError::UnsupportedFormat);
    }
    let (r, g, b) = match color {
        Color::RGB(r, g, b) => (r, g, b),
        Color::BGR(b, g, r) => (r, g, b),
        Color::GRAYSCALE(v) => (v, v, v),
    };
    if bpp == 1 {
        let level = match color {
            Color::GRAYSCALE(v) => to_byte(v),
            _ => (((r as u128 + g as u128 + b as u128) / 3) % 256) as u8,
        };
        Ok(vec![level])
    } else if bpp == 3 {
        Ok(vec![to_byte(r), to_byte(g), to_byte(b)])
    } else {
        Ok(vec![to_byte(b), to_byte(g), to_byte(r), 0u8])
    }
}

} // verus!
