//! What holds of every sort, stated over whole images.

use vstd::prelude::*;
use crate::engine::{
    lemma_sorted_raster_pixel, lemma_tinted_raster_pixel, sort_outcome, sort_result,
    sorted_raster, tinted_raster,
};
use crate::image::{lemma_raster_equal, Raster};
use crate::key::SortMode;
use crate::line::{
    lemma_run_colors_conserved, lemma_run_monotone, lemma_run_stable, lemma_sorted_line_is_fixed,
    lemma_sorted_line_len, sorted_line,
};
use crate::params::{SortError, SortingAlgorithm, SortingParameters};
use crate::scan::{lemma_line_of_place, lemma_place_on_line, line_count, line_of, place, scanline};
use crate::segment::runs_of;
use crate::sorter::{has_key, sorted_by_key};
use crate::tint::lemma_zero_rotation_is_identity;

verus! {

/// The scanlines are sorted independently of one another: each scanline of
/// the sorted image is the sorted scanline of the image.
pub proof fn lemma_scanline_of_sorted(
    img: Raster,
    algorithm: SortingAlgorithm,
    threshold: int,
    interval: int,
    mode: SortMode,
    k: int,
)
    requires
        img.wf(),
        !img.is_empty(),
        interval >= 1,
        0 <= k < line_count(algorithm, img.width, img.height),
    ensures
        scanline(sorted_raster(img, algorithm, threshold, interval, mode), algorithm, k)
            == sorted_line(scanline(img, algorithm, k), threshold, interval, mode),
{
    let sorted = sorted_raster(img, algorithm, threshold, interval, mode);
    let before = scanline(img, algorithm, k);
    let after = scanline(sorted, algorithm, k);
    lemma_sorted_line_len(before, threshold, interval, mode);
    assert forall|i: int| 0 <= i < after.len() implies after[i] == sorted_line(
        before,
        threshold,
        interval,
        mode,
    )[i] by {
        lemma_place_on_line(algorithm, img.width, img.height, k, i);
        let (x, y) = place(algorithm, img.width, img.height, k, i);
        lemma_sorted_raster_pixel(img, algorithm, threshold, interval, mode, x, y);
    }
    assert(after =~= sorted_line(before, threshold, interval, mode));
}

/// A sort preserves the dimensions: wherever it succeeds, the image that it
/// returns is as wide and as high as the image that it was given.
pub proof fn lemma_dimensions_preserved(
    img: Raster,
    algorithm: SortingAlgorithm,
    params: SortingParameters,
    allocated: bool,
)
    requires
        img.wf(),
    ensures
        sort_result(img, algorithm, params, allocated) matches Ok(out) ==> out.wf() && out.width
            == img.width && out.height == img.height,
        sort_result(img, algorithm, params, allocated) is Ok <==> params.valid() && !img.is_empty()
            && allocated,
{
    if !img.is_empty() {
        lemma_sorted_raster_pixel(
            img,
            algorithm,
            params.threshold as int,
            params.interval as int,
            params.sort_mode,
            0,
            0,
        );
        lemma_tinted_raster_pixel(
            sorted_raster(
                img,
                algorithm,
                params.threshold as int,
                params.interval as int,
                params.sort_mode,
            ),
            params.color_tint as int,
            0,
            0,
        );
    }
}

/// A rotation by no angle leaves the image as it is.
pub proof fn lemma_zero_tint_is_identity(img: Raster)
    requires
        img.wf(),
    ensures
        tinted_raster(img, 0) == img,
{
    let tinted = tinted_raster(img, 0);
    assert forall|x: int, y: int| tinted.holds(x, y) implies tinted.pixel(x, y) == img.pixel(
        x,
        y,
    ) by {
        lemma_tinted_raster_pixel(img, 0, x, y);
        lemma_zero_rotation_is_identity(img.pixel(x, y));
    }
    lemma_raster_equal(tinted, img);
}

/// Without tint, what the sort returns is the image with its scanlines
/// sorted: what holds of the sorted scanlines holds of the result.
pub proof fn lemma_outcome_without_tint(
    img: Raster,
    algorithm: SortingAlgorithm,
    params: SortingParameters,
)
    requires
        img.wf(),
        params.color_tint == 0,
    ensures
        sort_outcome(img, algorithm, params) == sorted_raster(
            img,
            algorithm,
            params.threshold as int,
            params.interval as int,
            params.sort_mode,
        ),
{
    let sorted = sorted_raster(
        img,
        algorithm,
        params.threshold as int,
        params.interval as int,
        params.sort_mode,
    );
    assert(sorted.wf());
    lemma_zero_tint_is_identity(sorted);
}

/// The colours of each run are conserved: on every scanline, the pixels
/// that stand in the place of a run after the sort are, as a multiset, the
/// pixels that stood there before.
pub proof fn lemma_colors_conserved_per_run(
    img: Raster,
    algorithm: SortingAlgorithm,
    threshold: int,
    interval: int,
    mode: SortMode,
    k: int,
    i: int,
)
    requires
        img.wf(),
        !img.is_empty(),
        interval >= 1,
        0 <= k < line_count(algorithm, img.width, img.height),
        0 <= i < runs_of(scanline(img, algorithm, k), threshold, interval).len(),
    ensures
        scanline(sorted_raster(img, algorithm, threshold, interval, mode), algorithm, k).subrange(
            runs_of(scanline(img, algorithm, k), threshold, interval)[i].start,
            runs_of(scanline(img, algorithm, k), threshold, interval)[i].end,
        ).to_multiset() == scanline(img, algorithm, k).subrange(
            runs_of(scanline(img, algorithm, k), threshold, interval)[i].start,
            runs_of(scanline(img, algorithm, k), threshold, interval)[i].end,
        ).to_multiset(),
{
    lemma_scanline_of_sorted(img, algorithm, threshold, interval, mode, k);
    lemma_run_colors_conserved(scanline(img, algorithm, k), threshold, interval, mode, i);
}

/// Every run is monotone: on every scanline of the sorted image, the sort
/// keys of the pixels of a run never decrease in scan order.
pub proof fn lemma_runs_monotone(
    img: Raster,
    algorithm: SortingAlgorithm,
    threshold: int,
    interval: int,
    mode: SortMode,
    k: int,
    i: int,
)
    requires
        img.wf(),
        !img.is_empty(),
        interval >= 1,
        0 <= k < line_count(algorithm, img.width, img.height),
        0 <= i < runs_of(scanline(img, algorithm, k), threshold, interval).len(),
    ensures
        sorted_by_key(
            scanline(
                sorted_raster(img, algorithm, threshold, interval, mode),
                algorithm,
                k,
            ).subrange(
                runs_of(scanline(img, algorithm, k), threshold, interval)[i].start,
                runs_of(scanline(img, algorithm, k), threshold, interval)[i].end,
            ),
            mode,
        ),
{
    lemma_scanline_of_sorted(img, algorithm, threshold, interval, mode, k);
    lemma_run_monotone(scanline(img, algorithm, k), threshold, interval, mode, i);
}

/// The sort is stable: within every run, the pixels of any one sort key
/// stand in the same order after the sort as before.
pub proof fn lemma_runs_stable(
    img: Raster,
    algorithm: SortingAlgorithm,
    threshold: int,
    interval: int,
    mode: SortMode,
    k: int,
    i: int,
    key: int,
)
    requires
        img.wf(),
        !img.is_empty(),
        interval >= 1,
        0 <= k < line_count(algorithm, img.width, img.height),
        0 <= i < runs_of(scanline(img, algorithm, k), threshold, interval).len(),
    ensures
        scanline(sorted_raster(img, algorithm, threshold, interval, mode), algorithm, k).subrange(
            runs_of(scanline(img, algorithm, k), threshold, interval)[i].start,
            runs_of(scanline(img, algorithm, k), threshold, interval)[i].end,
        ).filter(has_key(mode, key)) == scanline(img, algorithm, k).subrange(
            runs_of(scanline(img, algorithm, k), threshold, interval)[i].start,
            runs_of(scanline(img, algorithm, k), threshold, interval)[i].end,
        ).filter(has_key(mode, key)),
{
    lemma_scanline_of_sorted(img, algorithm, threshold, interval, mode, k);
    lemma_run_stable(scanline(img, algorithm, k), threshold, interval, mode, i, key);
}

/// Sorting the scanlines of an image whose scanlines were sorted with the
/// same direction, threshold, interval and key changes nothing.
pub proof fn lemma_sorted_raster_is_fixed(
    img: Raster,
    algorithm: SortingAlgorithm,
    threshold: int,
    interval: int,
    mode: SortMode,
)
    requires
        img.wf(),
        interval >= 1,
    ensures
        sorted_raster(
            sorted_raster(img, algorithm, threshold, interval, mode),
            algorithm,
            threshold,
            interval,
            mode,
        ) == sorted_raster(img, algorithm, threshold, interval, mode),
{
    let once = sorted_raster(img, algorithm, threshold, interval, mode);
    let twice = sorted_raster(once, algorithm, threshold, interval, mode);
    assert forall|x: int, y: int| twice.holds(x, y) implies twice.pixel(x, y) == once.pixel(
        x,
        y,
    ) by {
        let k = line_of(algorithm, img.width, img.height, x, y);
        lemma_line_of_place(algorithm, img.width, img.height, x, y);
        lemma_sorted_raster_pixel(img, algorithm, threshold, interval, mode, x, y);
        lemma_sorted_raster_pixel(once, algorithm, threshold, interval, mode, x, y);
        lemma_scanline_of_sorted(img, algorithm, threshold, interval, mode, k);
        lemma_sorted_line_is_fixed(scanline(img, algorithm, k), threshold, interval, mode);
    }
    lemma_raster_equal(twice, once);
}

/// A sort without tint is idempotent: applied to its own result, with the
/// same algorithm and parameters, it returns that result again.
pub proof fn lemma_sort_is_idempotent(
    img: Raster,
    algorithm: SortingAlgorithm,
    params: SortingParameters,
)
    requires
        img.wf(),
        params.valid(),
        params.color_tint == 0,
    ensures
        sort_outcome(sort_outcome(img, algorithm, params), algorithm, params) == sort_outcome(
            img,
            algorithm,
            params,
        ),
        sort_result(img, algorithm, params, true) matches Ok(once) ==> sort_result(
            once,
            algorithm,
            params,
            true,
        ) == Ok::<Raster, SortError>(once),
{
    let threshold = params.threshold as int;
    let interval = params.interval as int;
    let sorted = sorted_raster(img, algorithm, threshold, interval, params.sort_mode);
    assert(sorted.wf());
    lemma_zero_tint_is_identity(sorted);
    lemma_sorted_raster_is_fixed(img, algorithm, threshold, interval, params.sort_mode);
}

} // verus!
