//! Display colors.

use vstd::prelude::*;
use crate::scalar::Scalar;

verus! {

/// A color by its red, green and blue channels.
#[derive(Clone, Copy, Debug, PartialEq, Eq, PartialOrd, Ord, Hash, Structural)]
pub struct Color {
    pub r: u8,
    pub g: u8,
    pub b: u8,
}

/// The channel for an intensity from 0 to 1: 255 times the intensity, without
/// its fraction, and limited to what a channel holds.
pub open spec fn channel_of(intensity: Scalar) -> u8 {
    let whole = intensity.spec_mul(Scalar::spec_from_int(255)).spec_trunc();
    if whole < 0 {
        0u8
    } else if whole > 255 {
        255u8
    } else {
        whole as u8
    }
}

/// The intensity of a channel, from 0 to 1: the channel over 255.
pub open spec fn intensity_of(channel: u8) -> Scalar {
    Scalar::spec_from_int(channel as i64).spec_div(Scalar::spec_from_int(255))
}

/// The share of the chroma that the second strongest channel has at hue `h`,
/// in degrees: one less the distance of `h / 60` from the nearest odd number.
pub open spec fn hue_ramp(h: Scalar) -> Scalar {
    Scalar::spec_one().spec_sub(
        h.spec_div(Scalar::spec_from_int(60)).spec_rem(Scalar::spec_from_int(2)).spec_sub(
            Scalar::spec_one(),
        ).spec_abs(),
    )
}

/// The channel for an intensity.
fn to_channel(intensity: Scalar) -> (r: u8)
    ensures
        r == channel_of(intensity),
{
    let whole: i64 = (intensity * Scalar::from_int(255)).trunc();
    if whole < 0 {
        0
    } else if whole > 255 {
        255
    } else {
        whole as u8
    }
}

impl Color {
    /// The color with the given intensities, each from 0 to 1.
    pub open spec fn spec_rgb(r: Scalar, g: Scalar, b: Scalar) -> Color {
        Color { r: channel_of(r), g: channel_of(g), b: channel_of(b) }
    }

    /// The color of hue `h` in degrees, saturation `s` and value `v`. The hue
    /// is taken within one turn, the other two are limited to 0..1. The
    /// hue's sixth of the circle decides which channel gets the chroma
    /// `v * s`, which its ramp, and which neither; all three are lifted by
    /// `v` less the chroma.
    pub open spec fn spec_hsv(h: Scalar, s: Scalar, v: Scalar) -> Color {
        let h = h.spec_rem(Scalar::spec_from_int(360));
        let s = s.spec_max(Scalar::spec_zero()).spec_min(Scalar::spec_one());
        let v = v.spec_max(Scalar::spec_zero()).spec_min(Scalar::spec_one());
        let c = v.spec_mul(s);
        let x = c.spec_mul(hue_ramp(h));
        let m = v.spec_sub(c);
        let high = c.spec_add(m);
        let mid = x.spec_add(m);
        if h.raw < Scalar::spec_from_int(60).raw {
            Color::spec_rgb(high, mid, m)
        } else if h.raw < Scalar::spec_from_int(120).raw {
            Color::spec_rgb(mid, high, m)
        } else if h.raw < Scalar::spec_from_int(180).raw {
            Color::spec_rgb(m, high, mid)
        } else if h.raw < Scalar::spec_from_int(240).raw {
            Color::spec_rgb(m, mid, high)
        } else if h.raw < Scalar::spec_from_int(300).raw {
            Color::spec_rgb(mid, m, high)
        } else {
            Color::spec_rgb(high, m, mid)
        }
    }

    /// The intensities of the three channels, each from 0 to 1.
    pub open spec fn spec_to_rgb(self) -> (Scalar, Scalar, Scalar) {
        (intensity_of(self.r), intensity_of(self.g), intensity_of(self.b))
    }

    /// The color with the given intensities, each from 0 to 1.
    pub fn rgb(r: Scalar, g: Scalar, b: Scalar) -> (c: Color)
        ensures
            c == Color::spec_rgb(r, g, b),
    {
        Color { r: to_channel(r), g: to_channel(g), b: to_channel(b) }
    }

    /// The red channel.
    pub fn get_red(&self) -> (r: u8)
        ensures
            r == self.r,
    {
        self.r
    }

    /// The green channel.
    pub fn get_green(&self) -> (r: u8)
        ensures
            r == self.g,
    {
        self.g
    }

    /// The blue channel.
    pub fn get_blue(&self) -> (r: u8)
        ensures
            r == self.b,
    {
        self.b
    }

    /// The color of hue `h` in degrees, saturation `s` and value `v`.
    pub fn hsv(h: Scalar, s: Scalar, v: Scalar) -> (c: Color)
        ensures
            c == Color::spec_hsv(h, s, v),
    {
        let one: Scalar = Scalar::one();
        let h: Scalar = h % Scalar::from_int(360);
        let s: Scalar = s.max(Scalar::zero()).min(one);
        let v: Scalar = v.max(Scalar::zero()).min(one);

        let c: Scalar = v * s;
        let x: Scalar = c * (one - ((h / Scalar::from_int(60)) % Scalar::from_int(2) - one).abs());
        let m: Scalar = v - c;

        if h.lt(Scalar::from_int(60)) {
            Color::rgb(c + m, x + m, m)
        } else if h.lt(Scalar::from_int(120)) {
            Color::rgb(x + m, c + m, m)
        } else if h.lt(Scalar::from_int(180)) {
            Color::rgb(m, c + m, x + m)
        } else if h.lt(Scalar::from_int(240)) {
            Color::rgb(m, x + m, c + m)
        } else if h.lt(Scalar::from_int(300)) {
            Color::rgb(x + m, m, c + m)
        } else {
            Color::rgb(c + m, m, x + m)
        }
    }

    /// The intensities of the three channels, each from 0 to 1.
    pub fn to_rgb(&self) -> (r: (Scalar, Scalar, Scalar))
        ensures
            r == self.spec_to_rgb(),
    {
        let full: Scalar = Scalar::from_int(255);
        (
            Scalar::from_int(self.r as i64) / full,
            Scalar::from_int(self.g as i64) / full,
            Scalar::from_int(self.b as i64) / full,
        )
    }
}

} // verus!
