//! An earlier, smaller colour value kept for its public face: the same
//! fixed-point channels without the RGBA slice conversion.

use crate::colour::{cadd_m, chan_u8, cmul_m, CM};
use crate::fixed::{div_trunc, fix_mul, lemma_tdiv_mag, SCALE};
use vstd::prelude::*;

verus! {

/// A colour value, channels as fixed-point raw values in [0, SCALE].
#[derive(Clone, Copy, Debug, PartialEq, Eq, Structural)]
pub struct Pixel {
    pub r: i64,
    pub g: i64,
    pub b: i64,
}

impl View for Pixel {
    type V = CM;

    open spec fn view(&self) -> CM {
        CM { r: self.r as int, g: self.g as int, b: self.b as int }
    }
}

/// One fixed-point channel as its 8-bit value.
fn pixel_chan_u8(c: i64) -> (r: u8)
    requires
        0 <= c <= SCALE,
    ensures
        r == chan_u8(c as int),
{
    let q: i64 = div_trunc(c * 255, SCALE);
    proof {
        lemma_tdiv_mag((c as int) * 255, SCALE as int);
        assert((c as int) * 255 <= 65536 * 255) by (nonlinear_arith)
            requires
                0 <= c <= 65536,
        ;
        assert(0 <= (c as int) * 255) by (nonlinear_arith)
            requires
                0 <= c,
        ;
    }
    q as u8
}

impl Pixel {
    /// The red channel as an 8-bit value.
    pub fn r_u8(self) -> (r: u8)
        requires
            0 <= self.r <= SCALE,
        ensures
            r == chan_u8(self.r as int),
    {
        pixel_chan_u8(self.r)
    }

    /// The green channel as an 8-bit value.
    pub fn g_u8(self) -> (r: u8)
        requires
            0 <= self.g <= SCALE,
        ensures
            r == chan_u8(self.g as int),
    {
        pixel_chan_u8(self.g)
    }

    /// The blue channel as an 8-bit value.
    pub fn b_u8(self) -> (r: u8)
        requires
            0 <= self.b <= SCALE,
        ensures
            r == chan_u8(self.b as int),
    {
        pixel_chan_u8(self.b)
    }

    /// The value scaled by a fixed-point scalar, channel by channel.
    pub fn mul(self, t: i64) -> (r: Pixel)
        requires
            -0x4000_0000_0000_0000 <= self.r * t <= 0x4000_0000_0000_0000,
            -0x4000_0000_0000_0000 <= self.g * t <= 0x4000_0000_0000_0000,
            -0x4000_0000_0000_0000 <= self.b * t <= 0x4000_0000_0000_0000,
        ensures
            r@ == cmul_m(self@, t as int),
    {
        Pixel { r: fix_mul(self.r, t), g: fix_mul(self.g, t), b: fix_mul(self.b, t) }
    }

    /// Channel-wise sum.
    pub fn add(self, other: Pixel) -> (r: Pixel)
        requires
            -0x4000_0000_0000_0000 <= self.r + other.r <= 0x4000_0000_0000_0000,
            -0x4000_0000_0000_0000 <= self.g + other.g <= 0x4000_0000_0000_0000,
            -0x4000_0000_0000_0000 <= self.b + other.b <= 0x4000_0000_0000_0000,
        ensures
            r@ == cadd_m(self@, other@),
    {
        Pixel { r: self.r + other.r, g: self.g + other.g, b: self.b + other.b }
    }
}

} // verus!
