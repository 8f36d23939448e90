//! Colours: the 8-bit RGB pixel, its brightness and its hue.

use vstd::prelude::*;

verus! {

/// One pixel: three 8-bit channels.
#[derive(Clone, Copy, Debug, PartialEq, Eq, Structural)]
pub struct Rgb {
    pub r: u8,
    pub g: u8,
    pub b: u8,
}

/// Brightness and hue are fixed-point numbers: one brightness level, and one
/// degree of hue, is this many units.
pub const KEY_SCALE: u32 = 1000;

/// The weights of the three channels in the brightness of a pixel. They sum
/// to `KEY_SCALE`, so a grey pixel of level `v` has brightness `v * KEY_SCALE`.
pub const RED_WEIGHT: u32 = 299;

pub const GREEN_WEIGHT: u32 = 587;

pub const BLUE_WEIGHT: u32 = 114;

/// The width of one of the six sectors of the colour wheel, in hue units.
pub const SECTOR: u32 = 60000;

/// The whole colour wheel, in hue units.
pub const FULL_TURN: u32 = 360000;

/// The weighted luma of a pixel, in units of a thousandth of a level.
pub open spec fn brightness_of(p: Rgb) -> int {
    299 * p.r + 587 * p.g + 114 * p.b
}

/// The largest of the three channels: the value of the colour.
pub open spec fn max_channel_of(p: Rgb) -> int {
    if p.r >= p.g && p.r >= p.b {
        p.r as int
    } else if p.g >= p.b {
        p.g as int
    } else {
        p.b as int
    }
}

/// The smallest of the three channels.
pub open spec fn min_channel_of(p: Rgb) -> int {
    if p.r <= p.g && p.r <= p.b {
        p.r as int
    } else if p.g <= p.b {
        p.g as int
    } else {
        p.b as int
    }
}

/// The spread of the channels; zero exactly for greys, which have no hue.
pub open spec fn chroma_of(p: Rgb) -> int {
    max_channel_of(p) - min_channel_of(p)
}

/// The position of a coloured pixel on the wheel, counted in units of which
/// `chroma_of(p)` make one sector: between 0 and six times the chroma. Red
/// lies at 0, green at two sectors, blue at four.
pub open spec fn wheel_position_of(p: Rgb) -> int {
    let d = chroma_of(p);
    if max_channel_of(p) == p.r {
        if p.g >= p.b {
            p.g - p.b
        } else {
            6 * d - (p.b - p.g)
        }
    } else if max_channel_of(p) == p.g {
        2 * d + p.b - p.r
    } else {
        4 * d + p.r - p.g
    }
}

/// The hue of a pixel in thousandths of a degree, rounded down: at least 0
/// and less than 360 000. A grey has hue 0.
pub open spec fn hue_of(p: Rgb) -> int {
    if chroma_of(p) == 0 {
        0
    } else {
        (60000 * wheel_position_of(p)) / chroma_of(p)
    }
}

/// The wheel position lies within the six sectors.
pub proof fn lemma_wheel_position_bounds(p: Rgb)
    requires
        chroma_of(p) > 0,
    ensures
        0 <= wheel_position_of(p) < 6 * chroma_of(p),
{
}

/// The hue lies on the wheel.
pub proof fn lemma_hue_bounds(p: Rgb)
    ensures
        0 <= hue_of(p) < 360000,
{
    let d = chroma_of(p);
    if d > 0 {
        let n = wheel_position_of(p);
        lemma_wheel_position_bounds(p);
        assert(0 <= (60000 * n) / d < 360000) by (nonlinear_arith)
            requires
                0 <= n < 6 * d,
                d > 0,
        ;
    }
}

impl Rgb {
    pub fn new(r: u8, g: u8, b: u8) -> (p: Rgb)
        ensures
            p == (Rgb { r, g, b }),
    {
        Rgb { r, g, b }
    }

    /// The weighted luma of the pixel, between 0 and 255 000.
    pub fn brightness(&self) -> (k: u32)
        ensures
            k == brightness_of(*self),
            k <= 255000,
    {
        RED_WEIGHT * (self.r as u32) + GREEN_WEIGHT * (self.g as u32) + BLUE_WEIGHT * (
        self.b as u32)
    }

    pub fn max_channel(&self) -> (m: u8)
        ensures
            m == max_channel_of(*self),
    {
        if self.r >= self.g && self.r >= self.b {
            self.r
        } else if self.g >= self.b {
            self.g
        } else {
            self.b
        }
    }

    pub fn min_channel(&self) -> (m: u8)
        ensures
            m == min_channel_of(*self),
    {
        if self.r <= self.g && self.r <= self.b {
            self.r
        } else if self.g <= self.b {
            self.g
        } else {
            self.b
        }
    }

    /// The hue of the pixel in thousandths of a degree.
    pub fn hue(&self) -> (h: u32)
        ensures
            h == hue_of(*self),
            h < FULL_TURN,
    {
        let max: u8 = self.max_channel();
        let min: u8 = self.min_channel();
        let d: u32 = (max - min) as u32;
        proof {
            lemma_hue_bounds(*self);
        }
        if d == 0 {
            return 0;
        }
        let r: u32 = self.r as u32;
        let g: u32 = self.g as u32;
        let b: u32 = self.b as u32;
        let n: u32 = if max == self.r {
            if g >= b {
                g - b
            } else {
                6 * d - (b - g)
            }
        } else if max == self.g {
            2 * d + b - r
        } else {
            4 * d + r - g
        };
        proof {
            lemma_wheel_position_bounds(*self);
        }
        (SECTOR * n) / d
    }
}

} // verus!
