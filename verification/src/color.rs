//! 8-bit RGB colors and their scaling by a lighting intensity.

use vstd::prelude::*;
use crate::fixed::{tdiv, SCALE};

verus! {

/// An 8-bit RGB color; no alpha channel.
#[derive(Clone, Copy, Debug, PartialEq, Eq, Structural)]
pub struct Color {
    pub r: u8,
    pub g: u8,
    pub b: u8,
}

/// The background color: opaque white.
pub open spec fn background_spec() -> Color {
    Color { r: 255, g: 255, b: 255 }
}

/// One channel scaled by a fixed-point intensity, clamped to `0..=255`.
/// Saturation is this library's explicit policy for intensities above one:
/// a channel never wraps, it pins at its extreme.
pub open spec fn channel_scaled(c: int, i: int) -> int {
    let v: int = tdiv(c * i, SCALE as int);
    if v < 0 {
        0
    } else if v > 255 {
        255
    } else {
        v
    }
}

/// A color scaled per channel by a fixed-point intensity.
pub open spec fn color_scaled(c: Color, i: int) -> Color {
    Color {
        r: channel_scaled(c.r as int, i) as u8,
        g: channel_scaled(c.g as int, i) as u8,
        b: channel_scaled(c.b as int, i) as u8,
    }
}

/// The background color, as a value.
pub fn background() -> (c: Color)
    ensures
        c == background_spec(),
{
    Color { r: 255, g: 255, b: 255 }
}

/// Scales one channel by a fixed-point intensity, saturating at the
/// channel's bounds.
pub fn scale_channel(c: u8, i: i64) -> (r: u8)
    ensures
        r as int == channel_scaled(c as int, i as int),
{
    if i <= 0 {
        proof {
            assert(c as int * i as int <= 0) by (nonlinear_arith)
                requires
                    0 <= c,
                    i <= 0,
            ;
        }
        0
    } else {
        proof {
            assert(0 <= c as int * i as int <= 0xFF_0000_0000_0000_0000int)
                by (nonlinear_arith)
                requires
                    0 <= c <= 255,
                    0 < i <= i64::MAX,
            ;
        }
        let v: i128 = (c as i128) * (i as i128) / (SCALE as i128);
        if v > 255 {
            255
        } else {
            v as u8
        }
    }
}

impl Color {
    /// The color scaled per channel by a fixed-point intensity.
    pub fn scaled(self, i: i64) -> (c: Color)
        ensures
            c == color_scaled(self, i as int),
    {
        Color {
            r: scale_channel(self.r, i),
            g: scale_channel(self.g, i),
            b: scale_channel(self.b, i),
        }
    }
}

} // verus!
