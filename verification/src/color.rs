//! Colours and light modulation.

use vstd::prelude::*;
use crate::arith::lemma_floor_div_between;
use crate::geometry::ONE;

verus! {

/// An RGBA colour with 8 bits per channel.
#[derive(Clone, Copy, Debug, PartialEq, Eq, Structural)]
pub struct Color {
    pub r: u8,
    pub g: u8,
    pub b: u8,
    pub a: u8,
}

/// A channel value `c` lit with the fixed-point `intensity`: the product
/// `c * intensity / ONE` rounded down, kept within the range of a channel.
pub open spec fn lit_channel(c: u8, intensity: i64) -> u8 {
    let v = (c as int * intensity as int) / (ONE as int);
    if v < 0 {
        0u8
    } else if v > 255 {
        255u8
    } else {
        v as u8
    }
}

/// Lights one channel.
pub fn light_channel(c: u8, intensity: i64) -> (out: u8)
    ensures
        out == lit_channel(c, intensity),
{
    if intensity <= 0 {
        assert((c as int * intensity as int) <= 0) by (nonlinear_arith)
            requires
                c >= 0,
                intensity <= 0,
        ;
        0
    } else {
        assert(0 <= c as int * intensity as int <= 255 * 0x7fff_ffff_ffff_ffff) by (nonlinear_arith)
            requires
                0 <= c <= 255,
                0 < intensity <= 0x7fff_ffff_ffff_ffff,
        ;
        let v: i128 = (c as i128) * (intensity as i128) / (ONE as i128);
        if v > 255 {
            255
        } else {
            v as u8
        }
    }
}

/// Light of at most full intensity never brightens a channel.
pub proof fn lemma_lit_at_most_channel(c: u8, intensity: i64)
    requires
        intensity <= ONE,
    ensures
        lit_channel(c, intensity) <= c,
{
    let product = c as int * intensity as int;
    assert(product <= c * ONE) by (nonlinear_arith)
        requires
            product == c as int * intensity as int,
            0 <= c,
            intensity <= ONE,
    ;
    if product >= 0 {
        lemma_floor_div_between(product, ONE as int, 0, c as int);
    } else {
        lemma_floor_div_between(product, ONE as int, product, 0);
    }
}

impl Color {
    /// The colour with every channel, alpha included, lit by `intensity`.
    pub open spec fn lit(self, intensity: i64) -> Color {
        Color {
            r: lit_channel(self.r, intensity),
            g: lit_channel(self.g, intensity),
            b: lit_channel(self.b, intensity),
            a: lit_channel(self.a, intensity),
        }
    }

    /// Builds a colour from its four channels.
    pub fn new(r: u8, g: u8, b: u8, a: u8) -> (c: Color)
        ensures
            c == (Color { r, g, b, a }),
    {
        Color { r, g, b, a }
    }

    /// Multiplies every channel, alpha included, by the fixed-point
    /// `intensity`, rounding down and saturating at the channel range.
    pub fn modulate(self, intensity: i64) -> (out: Color)
        ensures
            out == self.lit(intensity),
    {
        Color {
            r: light_channel(self.r, intensity),
            g: light_channel(self.g, intensity),
            b: light_channel(self.b, intensity),
            a: light_channel(self.a, intensity),
        }
    }
}

} // verus!
