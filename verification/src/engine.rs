//! The pixel sort engine: every scanline of the image is segmented into runs
//! and sorted on its own, and the hues are rotated afterwards.

use vstd::prelude::*;
use crate::color::Rgb;
use crate::image::{
    lemma_from_row_major, lemma_index_in_bounds, lemma_index_injective, lemma_raster_equal, Image,
    Raster,
};
use crate::key::SortMode;
use crate::line::{lemma_sorted_line_len, sort_line, sorted_line};
use crate::params::{SortError, SortingAlgorithm, SortingParameters};
use crate::scan::{
    count_lines, lemma_line_of_place, lemma_place_on_line, length_of_line,
    line_count, line_len, line_of, place, place_on_line, position_of, scanline, start_of_line,
};
use crate::tint::{lemma_zero_rotation_is_identity, rotated};

verus! {

/// The image with every scanline sorted: each place holds the pixel that
/// stands, in the sorted scanline through that place, at the position of
/// that place.
pub open spec fn sorted_raster(
    img: Raster,
    algorithm: SortingAlgorithm,
    threshold: int,
    interval: int,
    mode: SortMode,
) -> Raster {
    Raster::from_fn(
        img.width,
        img.height,
        |x: int, y: int|
            sorted_line(
                scanline(img, algorithm, line_of(algorithm, img.width, img.height, x, y)),
                threshold,
                interval,
                mode,
            )[position_of(algorithm, x, y)],
    )
}

/// The image with the hue of every pixel rotated by `degrees`.
pub open spec fn tinted_raster(img: Raster, degrees: int) -> Raster {
    Raster::from_fn(img.width, img.height, |x: int, y: int| rotated(img.pixel(x, y), degrees))
}

/// What a sort makes of an image: the scanlines are sorted first, the hues
/// rotated afterwards.
pub open spec fn sort_outcome(
    img: Raster,
    algorithm: SortingAlgorithm,
    params: SortingParameters,
) -> Raster {
    tinted_raster(
        sorted_raster(
            img,
            algorithm,
            params.threshold as int,
            params.interval as int,
            params.sort_mode,
        ),
        params.color_tint as int,
    )
}

/// What a sort returns. The parameters are checked first, then the image;
/// `allocated` says whether there is a buffer for the output.
pub open spec fn sort_result(
    img: Raster,
    algorithm: SortingAlgorithm,
    params: SortingParameters,
    allocated: bool,
) -> Result<Raster, SortError> {
    if !params.valid() {
        Err(SortError::InvalidParameters)
    } else if img.is_empty() {
        Err(SortError::EmptyImage)
    } else if !allocated {
        Err(SortError::AllocationFailure)
    } else {
        Ok(sort_outcome(img, algorithm, params))
    }
}

/// The pixel that a row-major buffer of the given width holds for the place
/// `(x, y)`.
pub open spec fn at(pixels: Seq<Rgb>, width: int, x: int, y: int) -> Rgb {
    pixels[y * width + x]
}

/// The position of the place `(x, y)` in a row-major buffer.
fn flat_index(width: u32, height: u32, x: u32, y: u32) -> (i: usize)
    requires
        x < width,
        y < height,
        width * height <= usize::MAX,
    ensures
        i == y * width + x,
        i < width * height,
{
    proof {
        lemma_index_in_bounds(width as int, height as int, x as int, y as int);
        assert(y * width <= 0xffff_ffff * 0xffff_ffff) by (nonlinear_arith)
            requires
                0 <= y <= 0xffff_ffff,
                0 <= width <= 0xffff_ffff,
        ;
    }
    ((y as u64) * (width as u64) + (x as u64)) as usize
}

/// Fills `out` with the pixels of the image, row after row.
fn copy_pixels(image: &Image, out: &mut Vec<Rgb>)
    ensures
        final(out)@.len() == image@.width * image@.height,
        forall|x: int, y: int|
            image@.holds(x, y) ==> #[trigger] at(final(out)@, image@.width, x, y) == image@.pixel(
                x,
                y,
            ),
{
    let (width, height) = image.dimensions();
    out.clear();
    let mut y: u32 = 0;
    assert(0 * width == 0) by (nonlinear_arith);
    while y < height
        invariant
            y <= height,
            width == image@.width,
            height == image@.height,
            image@.wf(),
            out@.len() == y * width,
            forall|x: int, v: int|
                0 <= x < width && 0 <= v < y ==> #[trigger] at(out@, width as int, x, v)
                    == image@.pixel(x, v),
        decreases height - y,
    {
        let mut x: u32 = 0;
        while x < width
            invariant
                x <= width,
                y < height,
                width == image@.width,
                height == image@.height,
                image@.wf(),
                out@.len() == y * width + x,
                forall|u: int, v: int|
                    0 <= u < width && 0 <= v < y ==> #[trigger] at(out@, width as int, u, v)
                        == image@.pixel(u, v),
                forall|u: int| 0 <= u < x ==> #[trigger] at(out@, width as int, u, y as int)
                    == image@.pixel(u, y as int),
            decreases width - x,
        {
            let ghost before = out@;
            out.push(image.get_pixel(x, y));
            proof {
                assert forall|u: int, v: int| 0 <= u < width && 0 <= v < y implies #[trigger] at(
                    out@,
                    width as int,
                    u,
                    v,
                ) == image@.pixel(u, v) by {
                    lemma_index_in_bounds(width as int, y as int, u, v);
                    assert(v * width + u < y * width) by (nonlinear_arith)
                        requires
                            0 <= u < width,
                            0 <= v < y,
                    ;
                    assert(at(before, width as int, u, v) == image@.pixel(u, v));
                }
                assert forall|u: int| 0 <= u < x + 1 implies #[trigger] at(
                    out@,
                    width as int,
                    u,
                    y as int,
                ) == image@.pixel(u, y as int) by {
                    if u < x {
                        assert(at(before, width as int, u, y as int) == image@.pixel(u, y as int));
                    }
                }
            }
            x = x + 1;
        }
        proof {
            assert((y + 1) * width == y * width + width) by (nonlinear_arith);
        }
        y = y + 1;
    }
    assert(height * width == width * height) by (nonlinear_arith);
}

/// The pixels of scanline `k` of the image, in scan order.
fn gather_line(image: &Image, algorithm: SortingAlgorithm, k: u64) -> (line: Vec<Rgb>)
    requires
        !image@.is_empty(),
        k < line_count(algorithm, image@.width, image@.height),
    ensures
        line@ == scanline(image@, algorithm, k as int),
{
    let (width, height) = image.dimensions();
    let start = start_of_line(algorithm, width, height, k);
    let n: u32 = length_of_line(algorithm, width, height, k);
    let mut line: Vec<Rgb> = Vec::new();
    let mut i: u32 = 0;
    while i < n
        invariant
            i <= n,
            0 < width,
            0 < height,
            width == image@.width,
            height == image@.height,
            k < line_count(algorithm, width as int, height as int),
            n == line_len(algorithm, width as int, height as int, k as int),
            (start.0 as int, start.1 as int) == line_start_of(algorithm, width, height, k),
            line@.len() == i,
            forall|t: int| 0 <= t < i ==> line@[t] == scanline(image@, algorithm, k as int)[t],
        decreases n - i,
    {
        proof {
            lemma_place_on_line(algorithm, width as int, height as int, k as int, i as int);
        }
        let (x, y) = place_on_line(algorithm, start, i);
        line.push(image.get_pixel(x, y));
        i = i + 1;
    }
    assert(line@ =~= scanline(image@, algorithm, k as int));
    line
}

/// The start of scanline `k`, for dimensions as the machine holds them.
spec fn line_start_of(algorithm: SortingAlgorithm, width: u32, height: u32, k: u64) -> (int, int) {
    crate::scan::line_start(algorithm, width as int, height as int, k as int)
}

/// Writes the pixels of `line` to the places of scanline `k` in a row-major
/// buffer; every other place keeps its pixel.
fn scatter_line(
    out: &mut Vec<Rgb>,
    width: u32,
    height: u32,
    algorithm: SortingAlgorithm,
    k: u64,
    line: &Vec<Rgb>,
)
    requires
        0 < width,
        0 < height,
        width * height <= usize::MAX,
        old(out)@.len() == width * height,
        k < line_count(algorithm, width as int, height as int),
        line@.len() == line_len(algorithm, width as int, height as int, k as int),
    ensures
        final(out)@.len() == old(out)@.len(),
        forall|x: int, y: int|
            0 <= x < width && 0 <= y < height ==> #[trigger] at(final(out)@, width as int, x, y)
                == if line_of(algorithm, width as int, height as int, x, y) == k {
                line@[position_of(algorithm, x, y)]
            } else {
                at(old(out)@, width as int, x, y)
            },
{
    let ghost before = out@;
    let start = start_of_line(algorithm, width, height, k);
    let n: u32 = length_of_line(algorithm, width, height, k);
    let mut i: u32 = 0;
    while i < n
        invariant
            i <= n,
            0 < width,
            0 < height,
            width * height <= usize::MAX,
            out@.len() == width * height,
            before.len() == width * height,
            k < line_count(algorithm, width as int, height as int),
            n == line_len(algorithm, width as int, height as int, k as int),
            line@.len() == n,
            (start.0 as int, start.1 as int) == line_start_of(algorithm, width, height, k),
            forall|x: int, y: int|
                0 <= x < width && 0 <= y < height ==> #[trigger] at(out@, width as int, x, y)
                    == if line_of(algorithm, width as int, height as int, x, y) == k
                    && position_of(algorithm, x, y) < i {
                    line@[position_of(algorithm, x, y)]
                } else {
                    at(before, width as int, x, y)
                },
        decreases n - i,
    {
        proof {
            lemma_place_on_line(algorithm, width as int, height as int, k as int, i as int);
        }
        let (px, py) = place_on_line(algorithm, start, i);
        let idx: usize = flat_index(width, height, px, py);
        let ghost at_entry = out@;
        out[idx] = line[i as usize];
        proof {
            assert forall|x: int, y: int| 0 <= x < width && 0 <= y < height implies #[trigger] at(
                out@,
                width as int,
                x,
                y,
            ) == if line_of(algorithm, width as int, height as int, x, y) == k && position_of(
                algorithm,
                x,
                y,
            ) < i + 1 {
                line@[position_of(algorithm, x, y)]
            } else {
                at(before, width as int, x, y)
            } by {
                lemma_line_of_place(algorithm, width as int, height as int, x, y);
                lemma_index_in_bounds(width as int, height as int, x, y);
                if y * width + x == idx as int {
                    lemma_index_injective(width as int, x, y, px as int, py as int);
                } else {
                    assert(at(out@, width as int, x, y) == at(at_entry, width as int, x, y));
                }
            }
        }
        i = i + 1;
    }
    proof {
        assert forall|x: int, y: int| 0 <= x < width && 0 <= y < height implies #[trigger] at(
            out@,
            width as int,
            x,
            y,
        ) == if line_of(algorithm, width as int, height as int, x, y) == k {
            line@[position_of(algorithm, x, y)]
        } else {
            at(before, width as int, x, y)
        } by {
            lemma_line_of_place(algorithm, width as int, height as int, x, y);
        }
    }
}

/// Rotates the hue of every pixel of the buffer by `degrees`.
fn tint_all(out: &mut Vec<Rgb>, degrees: u32)
    ensures
        final(out)@.len() == old(out)@.len(),
        forall|t: int|
            0 <= t < old(out)@.len() ==> final(out)@[t] == rotated(old(out)@[t], degrees as int),
{
    let ghost before = out@;
    let n: usize = out.len();
    let mut t: usize = 0;
    while t < n
        invariant
            t <= n,
            n == before.len(),
            out@.len() == n,
            forall|u: int| 0 <= u < t ==> out@[u] == rotated(before[u], degrees as int),
            forall|u: int| t <= u < n ==> out@[u] == before[u],
        decreases n - t,
    {
        let p: Rgb = out[t];
        out[t] = p.rotate_hue(degrees);
        t = t + 1;
    }
}

/// The sorted image keeps the dimensions of the image, and holds at each
/// place the pixel that the sorted scanline through that place has there.
pub proof fn lemma_sorted_raster_pixel(
    img: Raster,
    algorithm: SortingAlgorithm,
    threshold: int,
    interval: int,
    mode: SortMode,
    x: int,
    y: int,
)
    requires
        img.wf(),
        img.holds(x, y),
    ensures
        sorted_raster(img, algorithm, threshold, interval, mode).wf(),
        sorted_raster(img, algorithm, threshold, interval, mode).width == img.width,
        sorted_raster(img, algorithm, threshold, interval, mode).height == img.height,
        sorted_raster(img, algorithm, threshold, interval, mode).pixel(x, y) == sorted_line(
            scanline(img, algorithm, line_of(algorithm, img.width, img.height, x, y)),
            threshold,
            interval,
            mode,
        )[position_of(algorithm, x, y)],
{
}

/// The tinted image keeps the dimensions of the image, and holds at each
/// place the pixel of the image with its hue rotated.
pub proof fn lemma_tinted_raster_pixel(img: Raster, degrees: int, x: int, y: int)
    requires
        img.wf(),
        img.holds(x, y),
    ensures
        tinted_raster(img, degrees).wf(),
        tinted_raster(img, degrees).width == img.width,
        tinted_raster(img, degrees).height == img.height,
        tinted_raster(img, degrees).pixel(x, y) == rotated(img.pixel(x, y), degrees),
{
}

/// The engine. It holds no state: every call works on its arguments alone.
#[derive(Clone, Copy, Debug)]
pub struct PixelSorter {}

impl PixelSorter {
    pub fn new() -> (sorter: PixelSorter)
        ensures
            sorter == (PixelSorter {}),
    {
        PixelSorter {}
    }

    /// Sorts the pixels of `image` into `buffer`, which becomes the output
    /// image: what the buffer held before does not count. `None` stands for
    /// a buffer that could not be allocated.
    ///
    /// The call fails with `InvalidParameters` where a parameter lies
    /// outside its domain; else with `EmptyImage` where the image has no
    /// pixels; else with `AllocationFailure` where there is no buffer. In
    /// every other case it returns the sorted and tinted image, which has the
    /// dimensions of `image`.
    pub fn sort_pixels_into(
        &self,
        image: &Image,
        algorithm: SortingAlgorithm,
        params: &SortingParameters,
        buffer: Option<Vec<Rgb>>,
    ) -> (r: Result<Image, SortError>)
        ensures
            match r {
                Ok(out) => sort_result(image@, algorithm, *params, buffer is Some) == Ok::<
                    Raster,
                    SortError,
                >(out@),
                Err(e) => sort_result(image@, algorithm, *params, buffer is Some) == Err::<
                    Raster,
                    SortError,
                >(e),
            },
            r matches Ok(out) ==> out@.wf() && out@.width == image@.width && out@.height
                == image@.height,
    {
        if !params.is_valid() {
            return Err(SortError::InvalidParameters);
        }
        if image.is_empty() {
            return Err(SortError::EmptyImage);
        }
        let mut out: Vec<Rgb> = match buffer {
            Some(buffer) => buffer,
            None => {
                return Err(SortError::AllocationFailure);
            },
        };
        let (width, height) = image.dimensions();
        let threshold: u32 = params.threshold;
        let interval: u32 = params.interval;
        let mode: SortMode = params.sort_mode;
        let ghost sorted = sorted_raster(
            image@,
            algorithm,
            threshold as int,
            interval as int,
            mode,
        );
        copy_pixels(image, &mut out);
        let count: u64 = count_lines(algorithm, width, height);
        let mut k: u64 = 0;
        while k < count
            invariant
                k <= count,
                count == line_count(algorithm, width as int, height as int),
                0 < width,
                0 < height,
                width == image@.width,
                height == image@.height,
                image@.wf(),
                width * height <= usize::MAX,
                threshold <= 255,
                interval >= 1,
                out@.len() == width * height,
                sorted == sorted_raster(image@, algorithm, threshold as int, interval as int, mode),
                forall|x: int, y: int|
                    0 <= x < width && 0 <= y < height ==> #[trigger] at(out@, width as int, x, y)
                        == if line_of(algorithm, width as int, height as int, x, y) < k {
                        sorted.pixel(x, y)
                    } else {
                        image@.pixel(x, y)
                    },
            decreases count - k,
        {
            let mut line: Vec<Rgb> = gather_line(image, algorithm, k);
            let ghost unsorted = line@;
            let _ = sort_line(&mut line, threshold, interval, mode);
            proof {
                lemma_sorted_line_len(unsorted, threshold as int, interval as int, mode);
            }
            let ghost before = out@;
            scatter_line(&mut out, width, height, algorithm, k, &line);
            proof {
                assert forall|x: int, y: int| 0 <= x < width && 0 <= y < height implies #[trigger] at(
                    out@,
                    width as int,
                    x,
                    y,
                ) == if line_of(algorithm, width as int, height as int, x, y) < k + 1 {
                    sorted.pixel(x, y)
                } else {
                    image@.pixel(x, y)
                } by {
                    assert(at(before, width as int, x, y) == if line_of(
                        algorithm,
                        width as int,
                        height as int,
                        x,
                        y,
                    ) < k {
                        sorted.pixel(x, y)
                    } else {
                        image@.pixel(x, y)
                    });
                    lemma_sorted_raster_pixel(
                        image@,
                        algorithm,
                        threshold as int,
                        interval as int,
                        mode,
                        x,
                        y,
                    );
                }
            }
            k = k + 1;
        }
        let ghost untinted = out@;
        let degrees: u32 = params.color_tint;
        if degrees != 0 {
            tint_all(&mut out, degrees);
        }
        let ghost pixels = out@;
        let img: Image = Image::from_buffer(width, height, out);
        proof {
            let expected = sort_outcome(image@, algorithm, *params);
            lemma_from_row_major(width as int, height as int, pixels);
            assert forall|x: int, y: int| img@.holds(x, y) implies img@.pixel(x, y)
                == expected.pixel(x, y) by {
                lemma_index_in_bounds(width as int, height as int, x, y);
                lemma_line_of_place(algorithm, width as int, height as int, x, y);
                lemma_sorted_raster_pixel(
                    image@,
                    algorithm,
                    threshold as int,
                    interval as int,
                    mode,
                    x,
                    y,
                );
                lemma_tinted_raster_pixel(sorted, degrees as int, x, y);
                assert(at(untinted, width as int, x, y) == sorted.pixel(x, y));
                if degrees == 0 {
                    lemma_zero_rotation_is_identity(sorted.pixel(x, y));
                }
                assert(pixels[y * width + x] == rotated(sorted.pixel(x, y), degrees as int));
            }
            lemma_sorted_raster_pixel(
                image@,
                algorithm,
                threshold as int,
                interval as int,
                mode,
                0,
                0,
            );
            lemma_tinted_raster_pixel(sorted, degrees as int, 0, 0);
            lemma_raster_equal(img@, expected);
        }
        Ok(img)
    }

    /// Sorts the pixels of an image: every scanline of the chosen direction
    /// is split into runs, each run is sorted by the chosen key, and the
    /// hues are rotated afterwards. The image itself is not changed.
    ///
    /// The call fails with `InvalidParameters` where a parameter lies
    /// outside its domain, and else with `EmptyImage` where the image has no
    /// pixels. In every other case it returns the sorted and tinted image,
    /// which has the dimensions of `image`, unless the buffer for it cannot
    /// be allocated: then it fails with `AllocationFailure`.
    pub fn sort_pixels(
        &self,
        image: &Image,
        algorithm: SortingAlgorithm,
        params: &SortingParameters,
    ) -> (r: Result<Image, SortError>)
        ensures
            match r {
                Ok(out) => sort_result(image@, algorithm, *params, true) == Ok::<
                    Raster,
                    SortError,
                >(out@),
                Err(e) => sort_result(image@, algorithm, *params, true) == Err::<
                    Raster,
                    SortError,
                >(e) || (e == SortError::AllocationFailure && sort_result(
                    image@,
                    algorithm,
                    *params,
                    true,
                ) is Ok),
            },
            r matches Ok(out) ==> out@.wf() && out@.width == image@.width && out@.height
                == image@.height,
    {
        let (width, height) = image.dimensions();
        let mut buffer: Vec<Rgb> = Vec::new();
        let count: usize = ((width as u64) * (height as u64)) as usize;
        let reserved = buffer.try_reserve(count);
        match reserved {
            Ok(()) => self.sort_pixels_into(image, algorithm, params, Some(buffer)),
            Err(_) => self.sort_pixels_into(image, algorithm, params, None),
        }
    }
}

} // verus!
