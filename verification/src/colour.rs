//! Linear RGB colours with fixed-point channels in [0, 1], and their exact
//! conversion to 8-bit channels (multiply by 255, truncate toward zero).

use crate::fixed::{div_trunc, fix_mul, fmul, lemma_tdiv_mag, tdiv, SCALE};
use vstd::prelude::*;

verus! {

/// The mathematical model of a colour: three unbounded raw channel values.
pub struct CM {
    pub r: int,
    pub g: int,
    pub b: int,
}

/// Colour scaled by a fixed-point scalar, channel by channel.
pub open spec fn cmul_m(c: CM, t: int) -> CM {
    CM { r: fmul(c.r, t), g: fmul(c.g, t), b: fmul(c.b, t) }
}

/// Channel-wise sum.
pub open spec fn cadd_m(a: CM, b: CM) -> CM {
    CM { r: a.r + b.r, g: a.g + b.g, b: a.b + b.b }
}

/// A fixed-point channel in [0, SCALE] as an 8-bit value: `c * 255 / SCALE`,
/// truncated toward zero.
pub open spec fn chan_u8(c: int) -> int {
    tdiv(c * 255, SCALE as int)
}

/// A colour, channels as fixed-point raw values in [0, SCALE].
#[derive(Clone, Copy, Debug, PartialEq, Eq, Structural)]
pub struct Colour {
    pub r: i64,
    pub g: i64,
    pub b: i64,
}

impl View for Colour {
    type V = CM;

    open spec fn view(&self) -> CM {
        CM { r: self.r as int, g: self.g as int, b: self.b as int }
    }
}

/// One fixed-point channel as its 8-bit value.
fn chan_to_u8(c: i64) -> (r: u8)
    requires
        0 <= c <= SCALE,
    ensures
        r == chan_u8(c as int),
{
    let q: i64 = div_trunc(c * 255, SCALE);
    proof {
        lemma_tdiv_mag((c as int) * 255, SCALE as int);
        assert((c as int) * 255 <= 65536 * 255) by (nonlinear_arith)
            requires
                0 <= c <= 65536,
        ;
        assert(0 <= (c as int) * 255) by (nonlinear_arith)
            requires
                0 <= c,
        ;
    }
    q as u8
}

impl Colour {
    /// The red channel as an 8-bit value.
    pub fn r_u8(self) -> (r: u8)
        requires
            0 <= self.r <= SCALE,
        ensures
            r == chan_u8(self.r as int),
    {
        chan_to_u8(self.r)
    }

    /// The green channel as an 8-bit value.
    pub fn g_u8(self) -> (r: u8)
        requires
            0 <= self.g <= SCALE,
        ensures
            r == chan_u8(self.g as int),
    {
        chan_to_u8(self.g)
    }

    /// The blue channel as an 8-bit value.
    pub fn b_u8(self) -> (r: u8)
        requires
            0 <= self.b <= SCALE,
        ensures
            r == chan_u8(self.b as int),
    {
        chan_to_u8(self.b)
    }

    /// The colour as one opaque RGBA pixel.
    pub fn slice_u8(self) -> (r: [u8; 4])
        requires
            0 <= self.r <= SCALE,
            0 <= self.g <= SCALE,
            0 <= self.b <= SCALE,
        ensures
            r@.len() == 4,
            r@[0] == chan_u8(self.r as int),
            r@[1] == chan_u8(self.g as int),
            r@[2] == chan_u8(self.b as int),
            r@[3] == 0xffu8,
    {
        let out: [u8; 4] = [self.r_u8(), self.g_u8(), self.b_u8(), 0xff];
        out
    }

    /// The colour scaled by a fixed-point scalar, channel by channel.
    pub fn mul(self, t: i64) -> (r: Colour)
        requires
            -0x4000_0000_0000_0000 <= self.r * t <= 0x4000_0000_0000_0000,
            -0x4000_0000_0000_0000 <= self.g * t <= 0x4000_0000_0000_0000,
            -0x4000_0000_0000_0000 <= self.b * t <= 0x4000_0000_0000_0000,
        ensures
            r@ == cmul_m(self@, t as int),
    {
        Colour { r: fix_mul(self.r, t), g: fix_mul(self.g, t), b: fix_mul(self.b, t) }
    }

    /// Channel-wise sum.
    pub fn add(self, other: Colour) -> (r: Colour)
        requires
            -0x4000_0000_0000_0000 <= self.r + other.r <= 0x4000_0000_0000_0000,
            -0x4000_0000_0000_0000 <= self.g + other.g <= 0x4000_0000_0000_0000,
            -0x4000_0000_0000_0000 <= self.b + other.b <= 0x4000_0000_0000_0000,
        ensures
            r@ == cadd_m(self@, other@),
    {
        Colour { r: self.r + other.r, g: self.g + other.g, b: self.b + other.b }
    }
}

} // verus!
