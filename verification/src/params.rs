//! What a caller chooses: the scan direction and the sorting parameters; and
//! the ways in which a call can fail.

use vstd::prelude::*;
use crate::key::SortMode;

verus! {

/// The direction in which the image is scanned.
#[derive(Clone, Copy, Debug, PartialEq, Eq, Structural)]
pub enum SortingAlgorithm {
    /// Every row, from left to right.
    Horizontal,
    /// Every column, from top to bottom.
    Vertical,
    /// Every diagonal, from the upper left to the lower right.
    Diagonal,
}

/// The algorithm that follows `algorithm` when they are cycled through.
pub open spec fn next_algorithm(algorithm: SortingAlgorithm) -> SortingAlgorithm {
    match algorithm {
        SortingAlgorithm::Horizontal => SortingAlgorithm::Vertical,
        SortingAlgorithm::Vertical => SortingAlgorithm::Diagonal,
        SortingAlgorithm::Diagonal => SortingAlgorithm::Horizontal,
    }
}

/// The algorithms in the order in which they are cycled through.
pub open spec fn all_algorithms() -> Seq<SortingAlgorithm> {
    seq![SortingAlgorithm::Horizontal, SortingAlgorithm::Vertical, SortingAlgorithm::Diagonal]
}

/// The label of an algorithm.
pub open spec fn algorithm_name(algorithm: SortingAlgorithm) -> Seq<char> {
    match algorithm {
        SortingAlgorithm::Horizontal => "Horizontal"@,
        SortingAlgorithm::Vertical => "Vertical"@,
        SortingAlgorithm::Diagonal => "Diagonal"@,
    }
}

/// Stepping from any place of the cycle leads to the place after it, and
/// from the last place back to the first.
pub proof fn lemma_next_algorithm_cycles(i: int)
    requires
        0 <= i < all_algorithms().len(),
    ensures
        next_algorithm(all_algorithms()[i]) == all_algorithms()[(i + 1) % (
        all_algorithms().len() as int)],
{
    let all = all_algorithms();
    assert(all.len() == 3);
    assert(all[0] == SortingAlgorithm::Horizontal && all[1] == SortingAlgorithm::Vertical
        && all[2] == SortingAlgorithm::Diagonal);
}

/// Every algorithm stands in the cycle.
pub proof fn lemma_all_algorithms_complete(algorithm: SortingAlgorithm)
    ensures
        all_algorithms().contains(algorithm),
{
    let i: int = match algorithm {
        SortingAlgorithm::Horizontal => 0,
        SortingAlgorithm::Vertical => 1,
        SortingAlgorithm::Diagonal => 2,
    };
    assert(all_algorithms()[i] == algorithm);
}

impl SortingAlgorithm {
    /// Every algorithm once, in cycling order.
    pub fn all() -> (algorithms: [SortingAlgorithm; 3])
        ensures
            algorithms@ == all_algorithms(),
    {
        let algorithms = [
            SortingAlgorithm::Horizontal,
            SortingAlgorithm::Vertical,
            SortingAlgorithm::Diagonal,
        ];
        assert(algorithms@ =~= all_algorithms());
        algorithms
    }

    /// The cyclic successor.
    pub fn next(self) -> (n: SortingAlgorithm)
        ensures
            n == next_algorithm(self),
    {
        match self {
            SortingAlgorithm::Horizontal => SortingAlgorithm::Vertical,
            SortingAlgorithm::Vertical => SortingAlgorithm::Diagonal,
            SortingAlgorithm::Diagonal => SortingAlgorithm::Horizontal,
        }
    }

    /// The label shown for the algorithm.
    pub fn name(self) -> (label: &'static str)
        ensures
            label@ == algorithm_name(self),
    {
        match self {
            SortingAlgorithm::Horizontal => "Horizontal",
            SortingAlgorithm::Vertical => "Vertical",
            SortingAlgorithm::Diagonal => "Diagonal",
        }
    }
}

/// The largest brightness level that a threshold can ask for.
pub const MAX_THRESHOLD: u32 = 255;

/// The angle of a whole turn of the colour wheel, in degrees.
pub const WHOLE_TURN_DEGREES: u32 = 360;

/// The parameters of one sort.
#[derive(Clone, Copy, Debug, PartialEq, Eq, Structural)]
pub struct SortingParameters {
    /// The brightness level, from 0 to 255, that a pixel must reach to be
    /// sorted together with its neighbours.
    pub threshold: u32,
    /// The largest number of pixels in one run; at least 1.
    pub interval: u32,
    /// What the pixels of a run are ordered by.
    pub sort_mode: SortMode,
    /// The angle, in whole degrees from 0 to 359, by which every hue is
    /// rotated after the sort; 0 leaves the colours as they are.
    pub color_tint: u32,
}

impl SortingParameters {
    /// Whether every parameter lies in its domain.
    pub open spec fn valid(&self) -> bool {
        &&& self.threshold <= 255
        &&& self.interval >= 1
        &&& self.color_tint < 360
    }

    /// Whether every parameter lies in its domain.
    pub fn is_valid(&self) -> (ok: bool)
        ensures
            ok == self.valid(),
    {
        self.threshold <= MAX_THRESHOLD && self.interval >= 1 && self.color_tint
            < WHOLE_TURN_DEGREES
    }
}

impl Default for SortingParameters {
    /// A moderate threshold, runs of at most ten pixels, ordered by
    /// brightness, and no tint.
    fn default() -> (params: SortingParameters)
        ensures
            params == (SortingParameters {
                threshold: 50,
                interval: 10,
                sort_mode: SortMode::Brightness,
                color_tint: 0,
            }),
            params.valid(),
    {
        SortingParameters { threshold: 50, interval: 10, sort_mode: SortMode::Brightness, color_tint: 0 }
    }
}

/// Why a call failed.
#[derive(Clone, Copy, Debug, PartialEq, Eq, Structural)]
pub enum SortError {
    /// A parameter lies outside its domain.
    InvalidParameters,
    /// The image to sort has no pixels: its width or its height is zero.
    EmptyImage,
    /// The buffer for the output could not be allocated.
    AllocationFailure,
}

/// The status text of an error.
pub open spec fn error_message(error: SortError) -> Seq<char> {
    match error {
        SortError::InvalidParameters => "invalid sorting parameters"@,
        SortError::EmptyImage => "image has no pixels"@,
        SortError::AllocationFailure => "could not allocate the output image"@,
    }
}

impl SortError {
    /// A short text for a status line.
    pub fn message(&self) -> (text: &'static str)
        ensures
            text@ == error_message(*self),
    {
        match self {
            SortError::InvalidParameters => "invalid sorting parameters",
            SortError::EmptyImage => "image has no pixels",
            SortError::AllocationFailure => "could not allocate the output image",
        }
    }
}

} // verus!
