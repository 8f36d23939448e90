//! The icon that the window gets where no icon file can be read.

use vstd::prelude::*;

verus! {

/// The width and the height of the default icon.
pub const ICON_SIZE: u32 = 64;

/// An icon: `width * height` pixels of four bytes each, red, green, blue and
/// opacity, row after row.
#[derive(Debug)]
pub struct Icon {
    pub rgba: Vec<u8>,
    pub width: u32,
    pub height: u32,
}

/// The byte `channel` of the pixel at `(x, y)` of the default icon: red
/// grows from left to right, green from top to bottom, blue is constant and
/// nothing shines through.
pub open spec fn default_icon_byte(x: int, y: int, channel: int) -> int {
    if channel == 0 {
        x * 255 / 64
    } else if channel == 1 {
        y * 255 / 64
    } else if channel == 2 {
        150
    } else {
        255
    }
}

/// The default icon: a gradient of 64 by 64 pixels.
pub fn default_icon() -> (icon: Icon)
    ensures
        icon.width == 64,
        icon.height == 64,
        icon.rgba@.len() == 64 * 64 * 4,
        forall|x: int, y: int, c: int|
            0 <= x < 64 && 0 <= y < 64 && 0 <= c < 4 ==> #[trigger] icon.rgba@[(y * 64 + x) * 4 + c]
                == default_icon_byte(x, y, c),
{
    let mut rgba: Vec<u8> = Vec::new();
    let mut y: u32 = 0;
    while y < ICON_SIZE
        invariant
            y <= 64,
            rgba@.len() == y * 64 * 4,
            forall|u: int, v: int, c: int|
                0 <= u < 64 && 0 <= v < y && 0 <= c < 4 ==> #[trigger] rgba@[(v * 64 + u) * 4 + c]
                    == default_icon_byte(u, v, c),
        decreases 64 - y,
    {
        let mut x: u32 = 0;
        while x < ICON_SIZE
            invariant
                x <= 64,
                y < 64,
                rgba@.len() == (y * 64 + x) * 4,
                forall|u: int, v: int, c: int|
                    0 <= u < 64 && 0 <= v < y && 0 <= c < 4 ==> #[trigger] rgba@[(v * 64 + u) * 4
                        + c] == default_icon_byte(u, v, c),
                forall|u: int, c: int|
                    0 <= u < x && 0 <= c < 4 ==> #[trigger] rgba@[(y * 64 + u) * 4 + c]
                        == default_icon_byte(u, y as int, c),
            decreases 64 - x,
        {
            rgba.push((x * 255 / ICON_SIZE) as u8);
            rgba.push((y * 255 / ICON_SIZE) as u8);
            rgba.push(150);
            rgba.push(255);
            x = x + 1;
        }
        y = y + 1;
    }
    Icon { rgba, width: ICON_SIZE, height: ICON_SIZE }
}

} // verus!
