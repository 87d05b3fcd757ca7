//! The viewport of a render: the centre of the displayed region and the zoom.

use vstd::prelude::*;

verus! {

/// The exponent field of a double-precision number that is all ones: the
/// number is then an infinity or not a number at all.
pub const NON_FINITE_EXPONENT: u64 = 0x7ff;

/// The exponent field of a double-precision number given by its bit pattern:
/// the eleven bits between the sign and the 52 bits of the fraction.
pub open spec fn exponent_of(bits: u64) -> nat {
    ((bits as nat) / 0x10_0000_0000_0000) % 0x800
}

/// The bit pattern stands for a finite number: neither an infinity nor a NaN.
pub open spec fn is_finite_bits(bits: u64) -> bool {
    exponent_of(bits) != NON_FINITE_EXPONENT
}

/// Tells whether the bit pattern of a double-precision number stands for a
/// finite number.
pub fn bits_are_finite(bits: u64) -> (finite: bool)
    ensures
        finite == is_finite_bits(bits),
{
    let exponent: u64 = (bits >> 52) & NON_FINITE_EXPONENT;
    assert(exponent == (bits / 0x10_0000_0000_0000) % 0x800) by (bit_vector)
        requires
            exponent == (bits >> 52) & 0x7ff,
    ;
    exponent != NON_FINITE_EXPONENT
}

/// The viewport of a render. Each of the three numbers is held as the bit
/// pattern of a double-precision number; the library reads from it only
/// whether the number is finite.
#[derive(Clone, Copy, Debug, PartialEq, Eq)]
pub struct Viewport {
    /// Real part of the centre.
    pub center_re: u64,
    /// Imaginary part of the centre.
    pub center_im: u64,
    /// Zoom level: the displayed region shrinks by a factor of ten for each
    /// unit of it.
    pub scale: u64,
}

impl Viewport {
    /// All three numbers of the viewport are finite.
    pub open spec fn finite(&self) -> bool {
        &&& is_finite_bits(self.center_re)
        &&& is_finite_bits(self.center_im)
        &&& is_finite_bits(self.scale)
    }

    /// A viewport from the bit patterns of its three numbers.
    pub fn from_bits(center_re: u64, center_im: u64, scale: u64) -> (viewport: Viewport)
        ensures
            viewport == (Viewport { center_re, center_im, scale }),
    {
        Viewport { center_re, center_im, scale }
    }

    /// Tells whether all three numbers of the viewport are finite.
    pub fn is_finite(&self) -> (finite: bool)
        ensures
            finite == self.finite(),
    {
        bits_are_finite(self.center_re) && bits_are_finite(self.center_im) && bits_are_finite(
            self.scale,
        )
    }
}

} // verus!
