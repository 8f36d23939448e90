//! The colour tinter: a rotation of the hue of a pixel that keeps its value
//! and its saturation.

use vstd::prelude::*;
use crate::color::{
    chroma_of, hue_of, lemma_hue_bounds, lemma_wheel_position_bounds, max_channel_of,
    min_channel_of, wheel_position_of, Rgb, FULL_TURN, KEY_SCALE, SECTOR,
};

verus! {

/// How far a channel has risen from the smallest channel towards the largest
/// when the hue stands `f` units into a sector, for a chroma of `d`: the
/// nearest whole level to `d * f / 60000`.
pub open spec fn rise(d: int, f: int) -> int {
    (d * f + 30000) / 60000
}

/// The colour whose largest channel is `max`, whose smallest is `min` and
/// whose hue is `h` thousandths of a degree. In the even sectors of the wheel
/// the third channel rises with the hue, in the odd ones it falls.
pub open spec fn color_with_hue(max: u8, min: u8, h: int) -> Rgb {
    let d = max - min;
    let f = h % 60000;
    let up = (min + rise(d, f)) as u8;
    let down = (min + rise(d, 60000 - f)) as u8;
    let sector = h / 60000;
    if sector == 0 {
        Rgb { r: max, g: up, b: min }
    } else if sector == 1 {
        Rgb { r: down, g: max, b: min }
    } else if sector == 2 {
        Rgb { r: min, g: max, b: up }
    } else if sector == 3 {
        Rgb { r: min, g: down, b: max }
    } else if sector == 4 {
        Rgb { r: up, g: min, b: max }
    } else {
        Rgb { r: max, g: min, b: down }
    }
}

/// The hue that a pixel has after a rotation by `degrees`, in thousandths of
/// a degree. Whole turns do not count.
pub open spec fn rotated_hue(p: Rgb, degrees: int) -> int {
    (hue_of(p) + 1000 * (degrees % 360)) % 360000
}

/// The pixel with its hue rotated by `degrees`. A grey has no hue and stays
/// as it is.
pub open spec fn rotated(p: Rgb, degrees: int) -> Rgb {
    if chroma_of(p) == 0 {
        p
    } else {
        color_with_hue(max_channel_of(p) as u8, min_channel_of(p) as u8, rotated_hue(p, degrees))
    }
}

/// The rise stays within the chroma.
pub proof fn lemma_rise_bounds(d: int, f: int)
    requires
        0 <= d <= 255,
        0 <= f <= 60000,
    ensures
        0 <= rise(d, f) <= d,
{
    assert(0 <= d * f <= d * 60000) by (nonlinear_arith)
        requires
            0 <= d,
            0 <= f <= 60000,
    ;
}

/// A colour built from a largest and a smallest channel and a hue has these
/// as its largest and smallest channel.
pub proof fn lemma_color_with_hue_extremes(max: u8, min: u8, h: int)
    requires
        min <= max,
        0 <= h < 360000,
    ensures
        max_channel_of(color_with_hue(max, min, h)) == max,
        min_channel_of(color_with_hue(max, min, h)) == min,
{
    let f = h % 60000;
    lemma_rise_bounds(max - min, f);
    lemma_rise_bounds(max - min, 60000 - f);
}

/// A rotation of the hue preserves value and saturation: the largest and the
/// smallest channel of the pixel stay what they were.
pub proof fn lemma_rotation_preserves_value_and_saturation(p: Rgb, degrees: int)
    ensures
        max_channel_of(rotated(p, degrees)) == max_channel_of(p),
        min_channel_of(rotated(p, degrees)) == min_channel_of(p),
{
    if chroma_of(p) != 0 {
        lemma_color_with_hue_extremes(
            max_channel_of(p) as u8,
            min_channel_of(p) as u8,
            rotated_hue(p, degrees),
        );
    }
}

/// How a hue splits into its sector and its rise. Where a colour of chroma
/// `d` stands `n` units along the wheel, `d` units to the sector, its hue has
/// `n / d` whole sectors, and the rise within the sector is `n % d` exactly:
/// rounding the hue down to a thousandth of a degree loses nothing.
pub proof fn lemma_hue_splits(n: int, d: int)
    requires
        0 < d <= 255,
        0 <= n < 6 * d,
    ensures
        ((60000 * n) / d) / 60000 == n / d,
        rise(d, ((60000 * n) / d) % 60000) == n % d,
        rise(d, 60000 - ((60000 * n) / d) % 60000) == d - n % d,
{
    let q = n / d;
    let m = n % d;
    let h = (60000 * n) / d;
    let g = (60000 * m) / d;
    assert(n == q * d + m && 0 <= m < d && 0 <= q < 6) by (nonlinear_arith)
        requires
            q == n / d,
            m == n % d,
            0 < d,
            0 <= n < 6 * d,
    ;
    assert(h == 60000 * q + g) by (nonlinear_arith)
        requires
            h == (60000 * n) / d,
            g == (60000 * m) / d,
            n == q * d + m,
            0 < d,
    ;
    assert(0 <= g < 60000 && d * g <= 60000 * m < d * g + d) by (nonlinear_arith)
        requires
            g == (60000 * m) / d,
            0 <= m < d,
    ;
    assert(h / 60000 == q && h % 60000 == g) by (nonlinear_arith)
        requires
            h == 60000 * q + g,
            0 <= g < 60000,
    ;
    assert((d * g + 30000) / 60000 == m) by (nonlinear_arith)
        requires
            d * g <= 60000 * m < d * g + d,
            0 < d <= 255,
    ;
    assert(d * (60000 - g) == 60000 * d - d * g) by (nonlinear_arith);
    assert((60000 * d - d * g + 30000) / 60000 == d - m) by (nonlinear_arith)
        requires
            d * g <= 60000 * m < d * g + d,
            0 < d <= 255,
    ;
}

/// Where `n` lies in the `k`-th stretch of length `d`, its quotient by `d` is
/// `k` and its remainder is what it has over `k * d`.
proof fn lemma_quotient_in_stretch(n: int, d: int, k: int)
    requires
        0 < d,
        k * d <= n < k * d + d,
    ensures
        n / d == k,
        n % d == n - k * d,
{
    assert(n / d == k && n % d == n - k * d) by (nonlinear_arith)
        requires
            0 < d,
            k * d <= n < k * d + d,
    ;
}

/// A rotation by no angle changes no pixel.
pub proof fn lemma_zero_rotation_is_identity(p: Rgb)
    ensures
        rotated(p, 0) == p,
{
    let d = chroma_of(p);
    if d != 0 {
        let n = wheel_position_of(p);
        lemma_wheel_position_bounds(p);
        lemma_hue_bounds(p);
        lemma_hue_splits(n, d);
        assert(rotated_hue(p, 0) == hue_of(p));
        let h = hue_of(p);
        let max = max_channel_of(p) as u8;
        let min = min_channel_of(p) as u8;
        assert(h == (60000 * n) / d);
        if n < d {
            lemma_quotient_in_stretch(n, d, 0);
            assert(h / 60000 == 0 && rise(d, h % 60000) == n);
            assert(color_with_hue(max, min, h) == p);
        } else if n < 2 * d {
            lemma_quotient_in_stretch(n, d, 1);
            assert(h / 60000 == 1 && rise(d, 60000 - h % 60000) == 2 * d - n);
            assert(color_with_hue(max, min, h) == p);
        } else if n < 3 * d {
            lemma_quotient_in_stretch(n, d, 2);
            assert(h / 60000 == 2 && rise(d, h % 60000) == n - 2 * d);
            assert(color_with_hue(max, min, h) == p);
        } else if n < 4 * d {
            lemma_quotient_in_stretch(n, d, 3);
            assert(h / 60000 == 3 && rise(d, 60000 - h % 60000) == 4 * d - n);
            assert(color_with_hue(max, min, h) == p);
        } else if n < 5 * d {
            lemma_quotient_in_stretch(n, d, 4);
            assert(h / 60000 == 4 && rise(d, h % 60000) == n - 4 * d);
            assert(color_with_hue(max, min, h) == p);
        } else {
            lemma_quotient_in_stretch(n, d, 5);
            assert(h / 60000 == 5 && rise(d, 60000 - h % 60000) == 6 * d - n);
            assert(color_with_hue(max, min, h) == p);
        }
    }
}

impl Rgb {
    /// Rotates the hue of the pixel by `degrees`.
    pub fn rotate_hue(&self, degrees: u32) -> (out: Rgb)
        ensures
            out == rotated(*self, degrees as int),
    {
        let max: u8 = self.max_channel();
        let min: u8 = self.min_channel();
        if max == min {
            return *self;
        }
        let turn: u32 = (degrees % 360) * KEY_SCALE;
        let h: u32 = (self.hue() + turn) % FULL_TURN;
        let d: u32 = (max - min) as u32;
        let f: u32 = h % SECTOR;
        proof {
            lemma_rise_bounds(d as int, f as int);
            lemma_rise_bounds(d as int, 60000 - f);
            assert(d * f <= 255 * 60000) by (nonlinear_arith)
                requires
                    0 <= d <= 255,
                    0 <= f <= 60000,
            ;
            assert(d * (60000 - f) <= 255 * 60000) by (nonlinear_arith)
                requires
                    0 <= d <= 255,
                    0 <= f <= 60000,
            ;
        }
        let up: u8 = (min as u32 + (d * f + SECTOR / 2) / SECTOR) as u8;
        let down: u8 = (min as u32 + (d * (SECTOR - f) + SECTOR / 2) / SECTOR) as u8;
        let sector: u32 = h / SECTOR;
        if sector == 0 {
            Rgb { r: max, g: up, b: min }
        } else if sector == 1 {
            Rgb { r: down, g: max, b: min }
        } else if sector == 2 {
            Rgb { r: min, g: max, b: up }
        } else if sector == 3 {
            Rgb { r: min, g: down, b: max }
        } else if sector == 4 {
            Rgb { r: up, g: min, b: max }
        } else {
            Rgb { r: max, g: min, b: down }
        }
    }
}

} // verus!
