//! The scanlines of an image: its rows, its columns or its diagonals,
//! according to the algorithm.

use vstd::prelude::*;
use crate::color::Rgb;
use crate::image::Raster;
use crate::params::SortingAlgorithm;

verus! {

/// How many scanlines an image of the given dimensions has: one for each
/// row, for each column, or for each diagonal.
pub open spec fn line_count(algorithm: SortingAlgorithm, width: int, height: int) -> int {
    match algorithm {
        SortingAlgorithm::Horizontal => height,
        SortingAlgorithm::Vertical => width,
        SortingAlgorithm::Diagonal => width + height - 1,
    }
}

/// The place at which scanline `k` begins. The diagonals are counted from
/// the lower left corner: the first `height` of them begin in the left
/// column, from the bottom up, the others in the top row.
pub open spec fn line_start(algorithm: SortingAlgorithm, width: int, height: int, k: int) -> (
    int,
    int,
) {
    match algorithm {
        SortingAlgorithm::Horizontal => (0, k),
        SortingAlgorithm::Vertical => (k, 0),
        SortingAlgorithm::Diagonal => if k < height {
            (0, height - 1 - k)
        } else {
            (k - (height - 1), 0)
        },
    }
}

/// How many pixels scanline `k` has.
pub open spec fn line_len(algorithm: SortingAlgorithm, width: int, height: int, k: int) -> int {
    match algorithm {
        SortingAlgorithm::Horizontal => width,
        SortingAlgorithm::Vertical => height,
        SortingAlgorithm::Diagonal => {
            let (x0, y0) = line_start(algorithm, width, height, k);
            if width - x0 <= height - y0 {
                width - x0
            } else {
                height - y0
            }
        },
    }
}

/// The place of pixel `i` of scanline `k`: a row runs to the right, a column
/// downwards, a diagonal to the right and downwards.
pub open spec fn place(algorithm: SortingAlgorithm, width: int, height: int, k: int, i: int) -> (
    int,
    int,
) {
    let (x0, y0) = line_start(algorithm, width, height, k);
    match algorithm {
        SortingAlgorithm::Horizontal => (x0 + i, y0),
        SortingAlgorithm::Vertical => (x0, y0 + i),
        SortingAlgorithm::Diagonal => (x0 + i, y0 + i),
    }
}

/// The scanline on which the place `(x, y)` lies.
pub open spec fn line_of(algorithm: SortingAlgorithm, width: int, height: int, x: int, y: int) -> int {
    match algorithm {
        SortingAlgorithm::Horizontal => y,
        SortingAlgorithm::Vertical => x,
        SortingAlgorithm::Diagonal => x - y + height - 1,
    }
}

/// Which pixel of its scanline the place `(x, y)` is.
pub open spec fn position_of(algorithm: SortingAlgorithm, x: int, y: int) -> int {
    match algorithm {
        SortingAlgorithm::Horizontal => x,
        SortingAlgorithm::Vertical => y,
        SortingAlgorithm::Diagonal => if x <= y {
            x
        } else {
            y
        },
    }
}

/// Every pixel of every scanline is a place of the image, and it lies on
/// that scanline at that position.
pub proof fn lemma_place_on_line(
    algorithm: SortingAlgorithm,
    width: int,
    height: int,
    k: int,
    i: int,
)
    requires
        0 < width,
        0 < height,
        0 <= k < line_count(algorithm, width, height),
        0 <= i < line_len(algorithm, width, height, k),
    ensures
        0 <= place(algorithm, width, height, k, i).0 < width,
        0 <= place(algorithm, width, height, k, i).1 < height,
        line_of(
            algorithm,
            width,
            height,
            place(algorithm, width, height, k, i).0,
            place(algorithm, width, height, k, i).1,
        ) == k,
        position_of(
            algorithm,
            place(algorithm, width, height, k, i).0,
            place(algorithm, width, height, k, i).1,
        ) == i,
{
}

/// Every place of the image lies on exactly one scanline, at one position:
/// the scanlines are disjoint and cover the image.
pub proof fn lemma_line_of_place(
    algorithm: SortingAlgorithm,
    width: int,
    height: int,
    x: int,
    y: int,
)
    requires
        0 <= x < width,
        0 <= y < height,
    ensures
        0 <= line_of(algorithm, width, height, x, y) < line_count(algorithm, width, height),
        0 <= position_of(algorithm, x, y) < line_len(
            algorithm,
            width,
            height,
            line_of(algorithm, width, height, x, y),
        ),
        place(
            algorithm,
            width,
            height,
            line_of(algorithm, width, height, x, y),
            position_of(algorithm, x, y),
        ) == (x, y),
{
}

/// Every scanline has at least one pixel.
pub proof fn lemma_line_not_empty(algorithm: SortingAlgorithm, width: int, height: int, k: int)
    requires
        0 < width,
        0 < height,
        0 <= k < line_count(algorithm, width, height),
    ensures
        0 < line_len(algorithm, width, height, k),
        line_len(algorithm, width, height, k) <= width || line_len(algorithm, width, height, k)
            <= height,
{
}

/// The pixels of scanline `k` of an image, in scan order.
pub open spec fn scanline(img: Raster, algorithm: SortingAlgorithm, k: int) -> Seq<Rgb> {
    Seq::new(
        line_len(algorithm, img.width, img.height, k) as nat,
        |i: int|
            img.pixel(
                place(algorithm, img.width, img.height, k, i).0,
                place(algorithm, img.width, img.height, k, i).1,
            ),
    )
}

/// The number of scanlines of an image of the given dimensions.
pub(crate) fn count_lines(algorithm: SortingAlgorithm, width: u32, height: u32) -> (n: u64)
    requires
        0 < width,
        0 < height,
    ensures
        n == line_count(algorithm, width as int, height as int),
{
    match algorithm {
        SortingAlgorithm::Horizontal => height as u64,
        SortingAlgorithm::Vertical => width as u64,
        SortingAlgorithm::Diagonal => width as u64 + height as u64 - 1,
    }
}

/// The place at which scanline `k` begins.
pub(crate) fn start_of_line(algorithm: SortingAlgorithm, width: u32, height: u32, k: u64) -> (s: (
    u32,
    u32,
))
    requires
        0 < width,
        0 < height,
        k < line_count(algorithm, width as int, height as int),
    ensures
        (s.0 as int, s.1 as int) == line_start(algorithm, width as int, height as int, k as int),
        s.0 < width,
        s.1 < height,
{
    match algorithm {
        SortingAlgorithm::Horizontal => (0, k as u32),
        SortingAlgorithm::Vertical => (k as u32, 0),
        SortingAlgorithm::Diagonal => if k < height as u64 {
            (0, height - 1 - (k as u32))
        } else {
            ((k - (height as u64 - 1)) as u32, 0)
        },
    }
}

/// The number of pixels of scanline `k`.
pub(crate) fn length_of_line(algorithm: SortingAlgorithm, width: u32, height: u32, k: u64) -> (n: u32)
    requires
        0 < width,
        0 < height,
        k < line_count(algorithm, width as int, height as int),
    ensures
        n == line_len(algorithm, width as int, height as int, k as int),
        0 < n,
{
    match algorithm {
        SortingAlgorithm::Horizontal => width,
        SortingAlgorithm::Vertical => height,
        SortingAlgorithm::Diagonal => {
            let (x0, y0) = start_of_line(algorithm, width, height, k);
            if width - x0 <= height - y0 {
                width - x0
            } else {
                height - y0
            }
        },
    }
}

/// The place of pixel `i` of the scanline that begins at `start`.
pub(crate) fn place_on_line(algorithm: SortingAlgorithm, start: (u32, u32), i: u32) -> (p: (u32, u32))
    requires
        algorithm != SortingAlgorithm::Vertical ==> start.0 + i <= u32::MAX,
        algorithm != SortingAlgorithm::Horizontal ==> start.1 + i <= u32::MAX,
    ensures
        p == match algorithm {
            SortingAlgorithm::Horizontal => ((start.0 + i) as u32, start.1),
            SortingAlgorithm::Vertical => (start.0, (start.1 + i) as u32),
            SortingAlgorithm::Diagonal => ((start.0 + i) as u32, (start.1 + i) as u32),
        },
{
    match algorithm {
        SortingAlgorithm::Horizontal => (start.0 + i, start.1),
        SortingAlgorithm::Vertical => (start.0, start.1 + i),
        SortingAlgorithm::Diagonal => (start.0 + i, start.1 + i),
    }
}

} // verus!
