//! The key extractor: the scalar by which the pixels of a run are ordered.

use vstd::prelude::*;
use crate::color::{brightness_of, hue_of, Rgb};

verus! {

/// What the pixels of a run are ordered by.
#[derive(Clone, Copy, Debug, PartialEq, Eq, Structural)]
pub enum SortMode {
    /// The weighted luma of the three channels.
    Brightness,
    /// The position on the colour wheel.
    Hue,
    /// The red channel alone.
    Red,
    /// The green channel alone.
    Green,
    /// The blue channel alone.
    Blue,
}

/// The mode that follows `mode` when the modes are cycled through.
pub open spec fn next_mode(mode: SortMode) -> SortMode {
    match mode {
        SortMode::Brightness => SortMode::Hue,
        SortMode::Hue => SortMode::Red,
        SortMode::Red => SortMode::Green,
        SortMode::Green => SortMode::Blue,
        SortMode::Blue => SortMode::Brightness,
    }
}

/// The modes in the order in which they are cycled through.
pub open spec fn all_modes() -> Seq<SortMode> {
    seq![SortMode::Brightness, SortMode::Hue, SortMode::Red, SortMode::Green, SortMode::Blue]
}

/// The label of a mode.
pub open spec fn mode_name(mode: SortMode) -> Seq<char> {
    match mode {
        SortMode::Brightness => "Brightness"@,
        SortMode::Hue => "Hue"@,
        SortMode::Red => "Red"@,
        SortMode::Green => "Green"@,
        SortMode::Blue => "Blue"@,
    }
}

/// The sort key of a pixel under a mode: brightness in thousandths of a
/// level, hue in thousandths of a degree, or the level of one channel.
pub open spec fn key_of(p: Rgb, mode: SortMode) -> int {
    match mode {
        SortMode::Brightness => brightness_of(p),
        SortMode::Hue => hue_of(p),
        SortMode::Red => p.r as int,
        SortMode::Green => p.g as int,
        SortMode::Blue => p.b as int,
    }
}

/// Stepping from any place of the cycle leads to the place after it, and
/// from the last place back to the first.
pub proof fn lemma_next_mode_cycles(i: int)
    requires
        0 <= i < all_modes().len(),
    ensures
        next_mode(all_modes()[i]) == all_modes()[(i + 1) % (all_modes().len() as int)],
{
    let modes = all_modes();
    assert(modes.len() == 5);
    assert(modes[0] == SortMode::Brightness && modes[1] == SortMode::Hue && modes[2]
        == SortMode::Red && modes[3] == SortMode::Green && modes[4] == SortMode::Blue);
}

/// Every mode stands in the cycle.
pub proof fn lemma_all_modes_complete(mode: SortMode)
    ensures
        all_modes().contains(mode),
{
    let i: int = match mode {
        SortMode::Brightness => 0,
        SortMode::Hue => 1,
        SortMode::Red => 2,
        SortMode::Green => 3,
        SortMode::Blue => 4,
    };
    assert(all_modes()[i] == mode);
}

impl SortMode {
    /// Every mode once, in cycling order.
    pub fn all() -> (modes: [SortMode; 5])
        ensures
            modes@ == all_modes(),
    {
        let modes = [SortMode::Brightness, SortMode::Hue, SortMode::Red, SortMode::Green, SortMode::Blue];
        assert(modes@ =~= all_modes());
        modes
    }

    /// The cyclic successor.
    pub fn next(self) -> (n: SortMode)
        ensures
            n == next_mode(self),
    {
        match self {
            SortMode::Brightness => SortMode::Hue,
            SortMode::Hue => SortMode::Red,
            SortMode::Red => SortMode::Green,
            SortMode::Green => SortMode::Blue,
            SortMode::Blue => SortMode::Brightness,
        }
    }

    /// The label shown for the mode.
    pub fn name(self) -> (label: &'static str)
        ensures
            label@ == mode_name(self),
    {
        match self {
            SortMode::Brightness => "Brightness",
            SortMode::Hue => "Hue",
            SortMode::Red => "Red",
            SortMode::Green => "Green",
            SortMode::Blue => "Blue",
        }
    }
}

impl Rgb {
    /// The key of the pixel under `mode`. Every colour has one.
    pub fn sort_key(&self, mode: SortMode) -> (k: u32)
        ensures
            k == key_of(*self, mode),
    {
        match mode {
            SortMode::Brightness => self.brightness(),
            SortMode::Hue => self.hue(),
            SortMode::Red => self.r as u32,
            SortMode::Green => self.g as u32,
            SortMode::Blue => self.b as u32,
        }
    }
}

} // verus!
