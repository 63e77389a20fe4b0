//! Frame-buffer drawing arithmetic.
//!
//! Pixels live in a row-major byte buffer whose rows are `stride` pixels
//! apart and whose pixels are `bytes_per_pixel` wide. The byte writes to
//! the real frame buffer are left to the hardware-facing code; here live
//! the position type and the offset and colour computations it uses.

use vstd::prelude::*;

verus! {

/// A position in the framebuffer.
#[derive(Clone, Copy, Debug, PartialEq, Eq, Structural)]
pub struct Position {
    /// The x coordinate.
    pub x: usize,
    /// The y coordinate.
    pub y: usize,
}

/// The byte offset of `position` in a frame buffer with the given row
/// stride and pixel width.
pub fn pixel_byte_offset(position: Position, stride: usize, bytes_per_pixel: usize) -> (r:
    usize)
    requires
        position.y * stride + position.x <= usize::MAX,
        (position.y * stride + position.x) * bytes_per_pixel <= usize::MAX,
    ensures
        r == (position.y * stride + position.x) * bytes_per_pixel,
{
    let line_offset = position.y * stride;
    let pixel_offset = line_offset + position.x;
    pixel_offset * bytes_per_pixel
}

/// The single-channel value a colour collapses to on a grayscale frame
/// buffer: one third of each channel.
pub fn grayscale_of(r: u8, g: u8, b: u8) -> (gray: u8)
    ensures
        gray == r / 3 + g / 3 + b / 3,
{
    r / 3 + g / 3 + b / 3
}

/// The pixel layouts a frame buffer can use.
#[derive(Clone, Copy, Debug, PartialEq, Eq, Structural)]
pub enum PixelFormat {
    /// Red, green, blue, one byte each.
    Rgb,
    /// Blue, green, red, one byte each.
    Bgr,
    /// A single grayscale byte.
    U8,
}

/// The first three bytes a pixel of colour `(r, g, b)` occupies in a
/// frame buffer of the given format: the channels in the format's order,
/// or the grayscale value followed by whatever the buffer held.
pub fn encode_pixel(format: PixelFormat, r: u8, g: u8, b: u8, rest: (u8, u8)) -> (bytes: (
    u8,
    u8,
    u8,
))
    ensures
        bytes == match format {
            PixelFormat::Rgb => (r, g, b),
            PixelFormat::Bgr => (b, g, r),
            PixelFormat::U8 => ((r / 3 + g / 3 + b / 3) as u8, rest.0, rest.1),
        },
{
    match format {
        PixelFormat::Rgb => (r, g, b),
        PixelFormat::Bgr => (b, g, r),
        PixelFormat::U8 => (grayscale_of(r, g, b), rest.0, rest.1),
    }
}

} // verus!
