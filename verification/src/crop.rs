//! The crop compositor: a rectangle is clamped to the image, the part of the
//! image inside it is copied out and sorted, and the result takes the place
//! of the image.

use vstd::prelude::*;
use crate::color::Rgb;
use crate::engine::{sort_result, PixelSorter};
use crate::image::{lemma_index_in_bounds, lemma_from_row_major, lemma_raster_equal, Image, Raster};
use crate::params::{SortError, SortingAlgorithm, SortingParameters};

verus! {

/// A rectangle chosen by a caller, by two corners in pixel coordinates.
/// The corners may lie anywhere, outside the image too.
#[derive(Clone, Copy, Debug, PartialEq, Eq, Structural)]
pub struct Rectangle {
    pub min_x: i64,
    pub min_y: i64,
    pub max_x: i64,
    pub max_y: i64,
}

/// A part of an image: `width` columns from column `x` on, `height` rows
/// from row `y` on.
#[derive(Clone, Copy, Debug, PartialEq, Eq, Structural)]
pub struct Region {
    pub x: u32,
    pub y: u32,
    pub width: u32,
    pub height: u32,
}

impl Region {
    /// Whether the region holds no pixel.
    pub open spec fn is_degenerate(self) -> bool {
        self.width == 0 || self.height == 0
    }

    /// Whether the region lies within an image of the given dimensions.
    pub open spec fn fits(self, width: int, height: int) -> bool {
        self.x + self.width <= width && self.y + self.height <= height
    }
}

/// The coordinate `v` moved into the range from 0 to `limit`.
pub open spec fn clamp_coordinate(v: int, limit: int) -> int {
    if v < 0 {
        0
    } else if v > limit {
        limit
    } else {
        v
    }
}

/// The distance from `min` to `max`, or 0 where `max` lies before `min`.
pub open spec fn extent(min: int, max: int) -> int {
    if max > min {
        max - min
    } else {
        0
    }
}

/// The part of an image of the given dimensions that a rectangle selects:
/// each corner is clamped to the image on its own.
pub open spec fn clamped_region(rect: Rectangle, width: int, height: int) -> Region {
    Region {
        x: clamp_coordinate(rect.min_x as int, width) as u32,
        y: clamp_coordinate(rect.min_y as int, height) as u32,
        width: extent(
            clamp_coordinate(rect.min_x as int, width),
            clamp_coordinate(rect.max_x as int, width),
        ) as u32,
        height: extent(
            clamp_coordinate(rect.min_y as int, height),
            clamp_coordinate(rect.max_y as int, height),
        ) as u32,
    }
}

/// Whether the rectangle lies entirely outside an image of the given
/// dimensions: to the left of it, to the right, above or below.
pub open spec fn lies_outside(rect: Rectangle, width: int, height: int) -> bool {
    ||| rect.max_x <= 0
    ||| rect.min_x >= width
    ||| rect.max_y <= 0
    ||| rect.min_y >= height
}

/// The part of the image inside the region, as an image of its own.
pub open spec fn cropped(img: Raster, region: Region) -> Raster {
    Raster::from_fn(
        region.width as int,
        region.height as int,
        |x: int, y: int| img.pixel(region.x + x, region.y + y),
    )
}

/// What the compositor returns. `Ok(None)` stands for the signal that the
/// rectangle selects nothing and the image is to be left as it is; the
/// rectangle is looked at before the parameters. `allocated` says whether
/// there is a buffer for the output.
pub open spec fn crop_result(
    img: Raster,
    rect: Rectangle,
    algorithm: SortingAlgorithm,
    params: SortingParameters,
    allocated: bool,
) -> Result<Option<Raster>, SortError> {
    let region = clamped_region(rect, img.width, img.height);
    if region.is_degenerate() {
        Ok(None)
    } else {
        match sort_result(cropped(img, region), algorithm, params, allocated) {
            Ok(sorted) => Ok(Some(sorted)),
            Err(e) => Err(e),
        }
    }
}

/// A clamped region lies within the image.
pub proof fn lemma_clamped_region_fits(rect: Rectangle, width: int, height: int)
    requires
        0 <= width <= u32::MAX,
        0 <= height <= u32::MAX,
    ensures
        clamped_region(rect, width, height).fits(width, height),
{
}

/// A rectangle that lies entirely outside the image selects nothing: the
/// clamped region has no pixel, and the compositor signals that the image
/// is to be left as it is, whatever the parameters are.
pub proof fn lemma_outside_rectangle_selects_nothing(
    img: Raster,
    rect: Rectangle,
    algorithm: SortingAlgorithm,
    params: SortingParameters,
    allocated: bool,
)
    requires
        img.wf(),
        img.width <= u32::MAX,
        img.height <= u32::MAX,
        lies_outside(rect, img.width, img.height),
    ensures
        clamped_region(rect, img.width, img.height).is_degenerate(),
        crop_result(img, rect, algorithm, params, allocated) == Ok::<Option<Raster>, SortError>(
            None,
        ),
{
}

/// A rectangle whose corners are not in order, on either axis, selects
/// nothing.
pub proof fn lemma_inverted_rectangle_selects_nothing(rect: Rectangle, width: int, height: int)
    requires
        0 <= width <= u32::MAX,
        0 <= height <= u32::MAX,
        rect.max_x <= rect.min_x || rect.max_y <= rect.min_y,
    ensures
        clamped_region(rect, width, height).is_degenerate(),
{
}

/// What the compositor hands back.
#[derive(Debug)]
pub enum CropOutcome {
    /// The sorted part of the image. It takes the place of the image.
    Sorted(Image),
    /// The rectangle selects nothing: the image is to be left as it is.
    NoOp,
}

impl View for CropOutcome {
    type V = Option<Raster>;

    open spec fn view(&self) -> Option<Raster> {
        match self {
            CropOutcome::Sorted(img) => Some(img@),
            CropOutcome::NoOp => None,
        }
    }
}

/// The coordinate `v` moved into the range from 0 to `limit`.
fn clamp_to(v: i64, limit: u32) -> (c: u32)
    ensures
        c == clamp_coordinate(v as int, limit as int),
{
    if v < 0 {
        0
    } else if v > limit as i64 {
        limit
    } else {
        v as u32
    }
}

impl Rectangle {
    pub fn new(min_x: i64, min_y: i64, max_x: i64, max_y: i64) -> (rect: Rectangle)
        ensures
            rect == (Rectangle { min_x, min_y, max_x, max_y }),
    {
        Rectangle { min_x, min_y, max_x, max_y }
    }

    /// The part of an image of the given dimensions that the rectangle
    /// selects. It lies within the image.
    pub fn clamp(&self, width: u32, height: u32) -> (region: Region)
        ensures
            region == clamped_region(*self, width as int, height as int),
            region.fits(width as int, height as int),
    {
        let x0: u32 = clamp_to(self.min_x, width);
        let y0: u32 = clamp_to(self.min_y, height);
        let x1: u32 = clamp_to(self.max_x, width);
        let y1: u32 = clamp_to(self.max_y, height);
        Region {
            x: x0,
            y: y0,
            width: if x1 > x0 {
                x1 - x0
            } else {
                0
            },
            height: if y1 > y0 {
                y1 - y0
            } else {
                0
            },
        }
    }
}

/// Copies the part of the image that the rectangle selects into an image of
/// its own. Where the rectangle selects nothing, that image has no pixels.
pub fn crop(image: &Image, rect: &Rectangle) -> (out: Image)
    ensures
        out@ == cropped(image@, clamped_region(*rect, image@.width, image@.height)),
{
    let (width, height) = image.dimensions();
    let region: Region = rect.clamp(width, height);
    let mut pixels: Vec<Rgb> = Vec::new();
    let mut y: u32 = 0;
    assert(0 * region.width == 0) by (nonlinear_arith);
    while y < region.height
        invariant
            y <= region.height,
            width == image@.width,
            height == image@.height,
            image@.wf(),
            region.fits(width as int, height as int),
            pixels@.len() == y * region.width,
            forall|u: int, v: int|
                0 <= u < region.width && 0 <= v < y ==> #[trigger] pixels@[v * region.width + u]
                    == image@.pixel(region.x + u, region.y + v),
        decreases region.height - y,
    {
        let mut x: u32 = 0;
        while x < region.width
            invariant
                x <= region.width,
                y < region.height,
                width == image@.width,
                height == image@.height,
                image@.wf(),
                region.fits(width as int, height as int),
                pixels@.len() == y * region.width + x,
                forall|u: int, v: int|
                    0 <= u < region.width && 0 <= v < y ==> #[trigger] pixels@[v * region.width
                        + u] == image@.pixel(region.x + u, region.y + v),
                forall|u: int|
                    0 <= u < x ==> #[trigger] pixels@[y * region.width + u] == image@.pixel(
                        region.x + u,
                        region.y + y,
                    ),
            decreases region.width - x,
        {
            let ghost before = pixels@;
            pixels.push(image.get_pixel(region.x + x, region.y + y));
            proof {
                assert forall|u: int, v: int|
                    0 <= u < region.width && 0 <= v < y implies #[trigger] pixels@[v * region.width
                    + u] == image@.pixel(region.x + u, region.y + v) by {
                    assert(v * region.width + u < y * region.width) by (nonlinear_arith)
                        requires
                            0 <= u < region.width,
                            0 <= v < y,
                    ;
                    assert(before[v * region.width + u] == image@.pixel(region.x + u, region.y + v));
                }
                assert forall|u: int| 0 <= u < x + 1 implies #[trigger] pixels@[y * region.width
                    + u] == image@.pixel(region.x + u, region.y + y) by {
                    if u < x {
                        assert(before[y * region.width + u] == image@.pixel(
                            region.x + u,
                            region.y + y,
                        ));
                    }
                }
            }
            x = x + 1;
        }
        proof {
            assert((y + 1) * region.width == y * region.width + region.width) by (nonlinear_arith);
        }
        y = y + 1;
    }
    assert(region.height * region.width == region.width * region.height) by (nonlinear_arith);
    assert(region.width * region.height <= width * height) by (nonlinear_arith)
        requires
            0 <= region.width <= width,
            0 <= region.height <= height,
    ;
    let ghost held = pixels@;
    let out: Image = Image::from_buffer(region.width, region.height, pixels);
    proof {
        let expected = cropped(image@, region);
        lemma_from_row_major(region.width as int, region.height as int, held);
        assert forall|u: int, v: int| out@.holds(u, v) implies out@.pixel(u, v) == expected.pixel(
            u,
            v,
        ) by {
            lemma_index_in_bounds(region.width as int, region.height as int, u, v);
            assert(held[v * region.width + u] == image@.pixel(region.x + u, region.y + v));
        }
        lemma_raster_equal(out@, expected);
    }
    out
}

impl PixelSorter {
    /// Crops the image to the rectangle and sorts the part into `buffer`,
    /// which becomes the output image. `None` stands for a buffer that could
    /// not be allocated.
    ///
    /// Where the clamped rectangle holds no pixel the call returns `NoOp`,
    /// whatever the parameters are. Else it returns what the sort of the
    /// cropped part returns.
    pub fn crop_and_sort_into(
        &self,
        image: &Image,
        rect: &Rectangle,
        algorithm: SortingAlgorithm,
        params: &SortingParameters,
        buffer: Option<Vec<Rgb>>,
    ) -> (r: Result<CropOutcome, SortError>)
        ensures
            match r {
                Ok(outcome) => crop_result(image@, *rect, algorithm, *params, buffer is Some)
                    == Ok::<Option<Raster>, SortError>(outcome@),
                Err(e) => crop_result(image@, *rect, algorithm, *params, buffer is Some) == Err::<
                    Option<Raster>,
                    SortError,
                >(e),
            },
            r matches Ok(CropOutcome::Sorted(out)) ==> out@.wf() && out@.width == clamped_region(
                *rect,
                image@.width,
                image@.height,
            ).width && out@.height == clamped_region(*rect, image@.width, image@.height).height,
    {
        let (width, height) = image.dimensions();
        let region: Region = rect.clamp(width, height);
        if region.width == 0 || region.height == 0 {
            return Ok(CropOutcome::NoOp);
        }
        let part: Image = crop(image, rect);
        match self.sort_pixels_into(&part, algorithm, params, buffer) {
            Ok(sorted) => Ok(CropOutcome::Sorted(sorted)),
            Err(e) => Err(e),
        }
    }

    /// Crops the image to the rectangle and sorts the part. The image itself
    /// is not changed: the caller puts the result in its place.
    ///
    /// Where the clamped rectangle holds no pixel the call returns `NoOp`,
    /// whatever the parameters are. Else it returns what the sort of the
    /// cropped part returns, unless the buffer for the output cannot be
    /// allocated: then it fails with `AllocationFailure`.
    pub fn crop_and_sort(
        &self,
        image: &Image,
        rect: &Rectangle,
        algorithm: SortingAlgorithm,
        params: &SortingParameters,
    ) -> (r: Result<CropOutcome, SortError>)
        ensures
            match r {
                Ok(outcome) => crop_result(image@, *rect, algorithm, *params, true) == Ok::<
                    Option<Raster>,
                    SortError,
                >(outcome@),
                Err(e) => crop_result(image@, *rect, algorithm, *params, true) == Err::<
                    Option<Raster>,
                    SortError,
                >(e) || (e == SortError::AllocationFailure && crop_result(
                    image@,
                    *rect,
                    algorithm,
                    *params,
                    true,
                ) matches Ok(Some(_))),
            },
            r matches Ok(CropOutcome::Sorted(out)) ==> out@.wf() && out@.width == clamped_region(
                *rect,
                image@.width,
                image@.height,
            ).width && out@.height == clamped_region(*rect, image@.width, image@.height).height,
    {
        let (width, height) = image.dimensions();
        let region: Region = rect.clamp(width, height);
        let mut buffer: Vec<Rgb> = Vec::new();
        assert(region.width * region.height <= width * height) by (nonlinear_arith)
            requires
                0 <= region.width <= width,
                0 <= region.height <= height,
        ;
        let count: usize = ((region.width as u64) * (region.height as u64)) as usize;
        let reserved = buffer.try_reserve(count);
        match reserved {
            Ok(()) => self.crop_and_sort_into(image, rect, algorithm, params, Some(buffer)),
            Err(_) => self.crop_and_sort_into(image, rect, algorithm, params, None),
        }
    }
}

} // verus!
