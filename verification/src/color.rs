//! The fixed palette: an iteration count becomes one opaque RGBA pixel.

use vstd::prelude::*;

verus! {

/// Number of bytes that one pixel occupies in a buffer.
pub const BYTES_PER_PIXEL: usize = 4;

/// The alpha byte of every pixel: fully opaque.
pub const OPAQUE: u8 = 255;

/// The pixel that stands for an iteration count `n`: red is a quarter of the
/// count, green half of it, blue the count itself, each reduced modulo 256,
/// and alpha is always opaque.
pub open spec fn color_of(n: nat) -> Seq<u8> {
    seq![((n / 4) % 256) as u8, ((n / 2) % 256) as u8, (n % 256) as u8, OPAQUE]
}

/// Encodes an iteration count as an RGBA pixel.
pub fn encode_color(n: u32) -> (px: [u8; 4])
    ensures
        px@ == color_of(n as nat),
{
    let r: u8 = ((n / 4) % 256) as u8;
    let g: u8 = ((n / 2) % 256) as u8;
    let b: u8 = (n % 256) as u8;
    let px: [u8; 4] = [r, g, b, OPAQUE];
    assert(px@ =~= color_of(n as nat));
    px
}

} // verus!
