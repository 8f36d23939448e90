use pixelsort::color::Rgb;
use pixelsort::crop::{crop, CropOutcome, Rectangle, Region};
use pixelsort::engine::PixelSorter;
use pixelsort::image::Image;
use pixelsort::key::SortMode;
use pixelsort::params::{SortError, SortingAlgorithm, SortingParameters};

fn grey(v: u8) -> Rgb {
    Rgb::new(v, v, v)
}

fn grey_image(width: u32, height: u32, levels: &[u8]) -> Image {
    Image::from_pixels(width, height, levels.iter().map(|v| grey(*v)).collect()).unwrap()
}

fn levels(image: &Image) -> Vec<u8> {
    image.to_pixels().iter().map(|p| p.r).collect()
}

fn params(threshold: u32, interval: u32) -> SortingParameters {
    SortingParameters { threshold, interval, sort_mode: SortMode::Brightness, color_tint: 0 }
}

fn gradient(width: u32, height: u32) -> Image {
    let mut pixels = Vec::new();
    for y in 0..height {
        for x in 0..width {
            pixels.push(Rgb::new((x * 20) as u8, (y * 20) as u8, ((x * 7 + y * 13) % 256) as u8));
        }
    }
    Image::from_pixels(width, height, pixels).unwrap()
}

#[test]
fn one_row_of_alternating_pixels_comes_back_unchanged() {
    let image = grey_image(4, 1, &[10, 200, 50, 220]);
    let sorted = PixelSorter::new()
        .sort_pixels(&image, SortingAlgorithm::Horizontal, &params(100, 50))
        .unwrap();
    assert_eq!(sorted.dimensions(), (4, 1));
    assert_eq!(sorted.to_pixels(), image.to_pixels());
}

#[test]
fn forced_split_sorts_each_half_on_its_own() {
    let image = grey_image(6, 1, &[130, 120, 110, 60, 50, 40]);
    let sorted = PixelSorter::new()
        .sort_pixels(&image, SortingAlgorithm::Horizontal, &params(30, 3))
        .unwrap();
    assert_eq!(levels(&sorted), vec![110, 120, 130, 40, 50, 60]);
}

#[test]
fn forced_split_keeps_pixels_out_of_the_other_run() {
    let image = grey_image(6, 1, &[90, 30, 60, 20, 80, 10]);
    let sorted = PixelSorter::new()
        .sort_pixels(&image, SortingAlgorithm::Horizontal, &params(5, 3))
        .unwrap();
    let out = levels(&sorted);
    let mut first: Vec<u8> = out[0..3].to_vec();
    let mut second: Vec<u8> = out[3..6].to_vec();
    assert_eq!(first, vec![30, 60, 90]);
    assert_eq!(second, vec![10, 20, 80]);
    first.sort();
    second.sort();
    assert_eq!(first, vec![30, 60, 90]);
    assert_eq!(second, vec![10, 20, 80]);
}

#[test]
fn horizontal_sort_works_row_by_row() {
    let image = grey_image(3, 2, &[30, 20, 10, 60, 50, 40]);
    let sorted = PixelSorter::new()
        .sort_pixels(&image, SortingAlgorithm::Horizontal, &params(0, 10))
        .unwrap();
    assert_eq!(levels(&sorted), vec![10, 20, 30, 40, 50, 60]);
}

#[test]
fn vertical_sort_works_column_by_column() {
    let image = grey_image(2, 3, &[50, 60, 30, 40, 10, 20]);
    let sorted = PixelSorter::new()
        .sort_pixels(&image, SortingAlgorithm::Vertical, &params(0, 10))
        .unwrap();
    assert_eq!(levels(&sorted), vec![10, 20, 30, 40, 50, 60]);
    let rows = grey_image(2, 3, &[60, 50, 40, 30, 20, 10]);
    let kept = PixelSorter::new()
        .sort_pixels(&rows, SortingAlgorithm::Vertical, &params(0, 10))
        .unwrap();
    assert_eq!(levels(&kept), vec![20, 10, 40, 30, 60, 50]);
}

#[test]
fn diagonal_sort_works_along_the_diagonals() {
    // 90 80 70
    // 60 50 40
    // 30 20 10
    let image = grey_image(3, 3, &[90, 80, 70, 60, 50, 40, 30, 20, 10]);
    let sorted = PixelSorter::new()
        .sort_pixels(&image, SortingAlgorithm::Diagonal, &params(0, 10))
        .unwrap();
    // diagonals: [30], [60 20], [90 50 10], [80 40], [70]
    assert_eq!(levels(&sorted), vec![10, 40, 70, 20, 50, 80, 30, 60, 90]);
}

#[test]
fn diagonal_sort_of_a_wide_and_of_a_high_image() {
    // 4 3 2 1
    // 8 7 6 5
    let wide = grey_image(4, 2, &[4, 3, 2, 1, 8, 7, 6, 5]);
    let sorted = PixelSorter::new()
        .sort_pixels(&wide, SortingAlgorithm::Diagonal, &params(0, 10))
        .unwrap();
    // diagonals: [8], [4 7], [3 6], [2 5], [1]
    assert_eq!(levels(&sorted), vec![4, 3, 2, 1, 8, 7, 6, 5]);
    // 1 2
    // 3 0
    // 5 1
    let high = grey_image(2, 3, &[1, 2, 3, 0, 5, 1]);
    let sorted = PixelSorter::new()
        .sort_pixels(&high, SortingAlgorithm::Diagonal, &params(0, 10))
        .unwrap();
    // diagonals: [5], [3 1], [1 0], [2]
    assert_eq!(levels(&sorted), vec![0, 2, 1, 1, 5, 3]);
}

#[test]
fn sort_preserves_the_dimensions() {
    let sorter = PixelSorter::new();
    for (w, h) in [(1u32, 1u32), (1, 7), (7, 1), (5, 3), (3, 5), (8, 8)] {
        let image = gradient(w, h);
        for algorithm in SortingAlgorithm::all() {
            let sorted = sorter.sort_pixels(&image, algorithm, &params(20, 4)).unwrap();
            assert_eq!(sorted.dimensions(), (w, h));
            assert_eq!(sorted.width(), w);
            assert_eq!(sorted.height(), h);
        }
    }
}

#[test]
fn sort_does_not_change_its_input() {
    let image = gradient(6, 5);
    let before = image.to_pixels();
    let _ = PixelSorter::new().sort_pixels(&image, SortingAlgorithm::Diagonal, &params(0, 4));
    assert_eq!(image.to_pixels(), before);
}

#[test]
fn sort_conserves_the_colours_of_the_image() {
    let image = gradient(7, 6);
    let sorter = PixelSorter::new();
    for algorithm in SortingAlgorithm::all() {
        for mode in SortMode::all() {
            let p = SortingParameters { threshold: 40, interval: 3, sort_mode: mode, color_tint: 0 };
            let sorted = sorter.sort_pixels(&image, algorithm, &p).unwrap();
            let mut before = image.to_pixels();
            let mut after = sorted.to_pixels();
            before.sort_by_key(|p| (p.r, p.g, p.b));
            after.sort_by_key(|p| (p.r, p.g, p.b));
            assert_eq!(before, after);
        }
    }
}

#[test]
fn sort_twice_is_sort_once() {
    let image = gradient(9, 7);
    let sorter = PixelSorter::new();
    for algorithm in SortingAlgorithm::all() {
        for mode in SortMode::all() {
            let p = SortingParameters { threshold: 60, interval: 4, sort_mode: mode, color_tint: 0 };
            let once = sorter.sort_pixels(&image, algorithm, &p).unwrap();
            let twice = sorter.sort_pixels(&once, algorithm, &p).unwrap();
            assert_eq!(twice.to_pixels(), once.to_pixels());
            assert_eq!(twice.dimensions(), once.dimensions());
        }
    }
}

#[test]
fn runs_of_the_sorted_image_are_monotone() {
    let image = gradient(12, 1);
    let p = SortingParameters { threshold: 0, interval: 5, sort_mode: SortMode::Blue, color_tint: 0 };
    let sorted = PixelSorter::new().sort_pixels(&image, SortingAlgorithm::Horizontal, &p).unwrap();
    let out = sorted.to_pixels();
    for run in [0..5usize, 5..10, 10..12] {
        for i in run.start + 1..run.end {
            assert!(out[i - 1].b <= out[i].b);
        }
    }
}

#[test]
fn tint_is_applied_after_the_sort() {
    let red = Rgb::new(255, 0, 0);
    let dark_red = Rgb::new(100, 0, 0);
    let image = Image::from_pixels(2, 1, vec![red, dark_red]).unwrap();
    let p = SortingParameters { threshold: 0, interval: 10, sort_mode: SortMode::Red, color_tint: 120 };
    let sorted = PixelSorter::new().sort_pixels(&image, SortingAlgorithm::Horizontal, &p).unwrap();
    // ordered by the red that the pixels had before the tint
    assert_eq!(sorted.to_pixels(), vec![Rgb::new(0, 100, 0), Rgb::new(0, 255, 0)]);
}

#[test]
fn sort_by_hue_orders_along_the_wheel() {
    let image = Image::from_pixels(
        3,
        1,
        vec![Rgb::new(0, 0, 255), Rgb::new(0, 255, 0), Rgb::new(255, 0, 0)],
    ).unwrap();
    let p = SortingParameters { threshold: 0, interval: 10, sort_mode: SortMode::Hue, color_tint: 0 };
    let sorted = PixelSorter::new().sort_pixels(&image, SortingAlgorithm::Horizontal, &p).unwrap();
    assert_eq!(
        sorted.to_pixels(),
        vec![Rgb::new(255, 0, 0), Rgb::new(0, 255, 0), Rgb::new(0, 0, 255)]
    );
}

#[test]
fn threshold_gates_on_brightness_whatever_the_sort_key() {
    // the blue pixel is dark (brightness 29.07) though its blue channel is high
    let image = Image::from_pixels(
        3,
        1,
        vec![Rgb::new(200, 200, 90), Rgb::new(0, 0, 255), Rgb::new(200, 200, 10)],
    ).unwrap();
    let p = SortingParameters { threshold: 100, interval: 10, sort_mode: SortMode::Blue, color_tint: 0 };
    let sorted = PixelSorter::new().sort_pixels(&image, SortingAlgorithm::Horizontal, &p).unwrap();
    assert_eq!(sorted.to_pixels(), image.to_pixels());
}

#[test]
fn invalid_parameters_are_refused() {
    let image = gradient(3, 3);
    let sorter = PixelSorter::new();
    let bad_threshold = SortingParameters { threshold: 256, ..SortingParameters::default() };
    let bad_interval = SortingParameters { interval: 0, ..SortingParameters::default() };
    let bad_tint = SortingParameters { color_tint: 360, ..SortingParameters::default() };
    for p in [bad_threshold, bad_interval, bad_tint] {
        assert!(!p.is_valid());
        let r = sorter.sort_pixels(&image, SortingAlgorithm::Horizontal, &p);
        assert_eq!(r.err(), Some(SortError::InvalidParameters));
    }
}

#[test]
fn parameters_at_the_ends_of_their_domains_are_accepted() {
    let image = gradient(3, 3);
    let sorter = PixelSorter::new();
    let low = SortingParameters { threshold: 0, interval: 1, sort_mode: SortMode::Hue, color_tint: 0 };
    let high = SortingParameters {
        threshold: 255,
        interval: u32::MAX,
        sort_mode: SortMode::Hue,
        color_tint: 359,
    };
    assert!(low.is_valid() && high.is_valid());
    assert!(sorter.sort_pixels(&image, SortingAlgorithm::Vertical, &low).is_ok());
    assert!(sorter.sort_pixels(&image, SortingAlgorithm::Vertical, &high).is_ok());
}

#[test]
fn an_empty_image_is_refused() {
    let sorter = PixelSorter::new();
    for (w, h) in [(0u32, 0u32), (0, 5), (5, 0)] {
        let image = Image::from_pixels(w, h, Vec::new()).unwrap();
        assert!(image.is_empty());
        let r = sorter.sort_pixels(&image, SortingAlgorithm::Horizontal, &SortingParameters::default());
        assert_eq!(r.err(), Some(SortError::EmptyImage));
    }
}

#[test]
fn invalid_parameters_come_before_an_empty_image() {
    let image = Image::from_pixels(0, 0, Vec::new()).unwrap();
    let p = SortingParameters { interval: 0, ..SortingParameters::default() };
    let r = PixelSorter::new().sort_pixels(&image, SortingAlgorithm::Horizontal, &p);
    assert_eq!(r.err(), Some(SortError::InvalidParameters));
}

#[test]
fn a_missing_buffer_is_an_allocation_failure() {
    let image = gradient(3, 3);
    let sorter = PixelSorter::new();
    let p = SortingParameters::default();
    let r = sorter.sort_pixels_into(&image, SortingAlgorithm::Horizontal, &p, None);
    assert_eq!(r.err(), Some(SortError::AllocationFailure));
    let rect = Rectangle::new(0, 0, 2, 2);
    let r = sorter.crop_and_sort_into(&image, &rect, SortingAlgorithm::Horizontal, &p, None);
    assert_eq!(r.err(), Some(SortError::AllocationFailure));
}

#[test]
fn a_given_buffer_is_overwritten() {
    let image = grey_image(3, 1, &[30, 20, 10]);
    let buffer = vec![Rgb::new(1, 2, 3); 17];
    let sorted = PixelSorter::new()
        .sort_pixels_into(&image, SortingAlgorithm::Horizontal, &params(0, 10), Some(buffer))
        .unwrap();
    assert_eq!(levels(&sorted), vec![10, 20, 30]);
}

#[test]
fn default_parameters_are_valid_and_moderate() {
    let p = SortingParameters::default();
    assert!(p.is_valid());
    assert_eq!(p.threshold, 50);
    assert_eq!(p.interval, 10);
    assert_eq!(p.sort_mode, SortMode::Brightness);
    assert_eq!(p.color_tint, 0);
}

#[test]
fn algorithms_cycle() {
    let all = SortingAlgorithm::all();
    assert_eq!(
        all,
        [SortingAlgorithm::Horizontal, SortingAlgorithm::Vertical, SortingAlgorithm::Diagonal]
    );
    for i in 0..all.len() {
        assert_eq!(all[i].next(), all[(i + 1) % all.len()]);
    }
    assert_eq!(SortingAlgorithm::Diagonal.next(), SortingAlgorithm::Horizontal);
}

#[test]
fn algorithms_have_names() {
    assert_eq!(SortingAlgorithm::Horizontal.name(), "Horizontal");
    assert_eq!(SortingAlgorithm::Vertical.name(), "Vertical");
    assert_eq!(SortingAlgorithm::Diagonal.name(), "Diagonal");
}

#[test]
fn errors_have_messages() {
    assert_eq!(SortError::InvalidParameters.message(), "invalid sorting parameters");
    assert_eq!(SortError::EmptyImage.message(), "image has no pixels");
    assert_eq!(SortError::AllocationFailure.message(), "could not allocate the output image");
}

#[test]
fn crop_then_sort_yields_the_cropped_dimensions() {
    let image = gradient(10, 10);
    let rect = Rectangle::new(2, 2, 6, 6);
    let outcome = PixelSorter::new()
        .crop_and_sort(&image, &rect, SortingAlgorithm::Horizontal, &SortingParameters::default())
        .unwrap();
    match outcome {
        CropOutcome::Sorted(sorted) => assert_eq!(sorted.dimensions(), (4, 4)),
        CropOutcome::NoOp => panic!("the rectangle selects sixteen pixels"),
    }
}

#[test]
fn crop_then_sort_is_the_sort_of_the_crop() {
    let image = gradient(10, 10);
    let rect = Rectangle::new(2, 3, 7, 9);
    let sorter = PixelSorter::new();
    let p = SortingParameters { threshold: 30, interval: 3, sort_mode: SortMode::Green, color_tint: 45 };
    let part = crop(&image, &rect);
    assert_eq!(part.dimensions(), (5, 6));
    let expected = sorter.sort_pixels(&part, SortingAlgorithm::Vertical, &p).unwrap();
    match sorter.crop_and_sort(&image, &rect, SortingAlgorithm::Vertical, &p).unwrap() {
        CropOutcome::Sorted(sorted) => {
            assert_eq!(sorted.dimensions(), (5, 6));
            assert_eq!(sorted.to_pixels(), expected.to_pixels());
        },
        CropOutcome::NoOp => panic!("the rectangle selects thirty pixels"),
    }
}

#[test]
fn crop_copies_the_pixels_of_the_region() {
    let image = gradient(5, 4);
    let part = crop(&image, &Rectangle::new(1, 2, 4, 4));
    assert_eq!(part.dimensions(), (3, 2));
    for y in 0..2 {
        for x in 0..3 {
            assert_eq!(part.get_pixel(x, y), image.get_pixel(x + 1, y + 2));
        }
    }
}

#[test]
fn a_rectangle_outside_the_image_is_a_no_op() {
    let image = gradient(10, 10);
    let sorter = PixelSorter::new();
    let p = SortingParameters::default();
    for rect in [
        Rectangle::new(-20, -20, -5, -5),
        Rectangle::new(10, 0, 30, 10),
        Rectangle::new(0, 10, 10, 30),
        Rectangle::new(-9, 2, 0, 8),
        Rectangle::new(2, -9, 8, 0),
        Rectangle::new(i64::MIN, i64::MIN, -1, -1),
        Rectangle::new(11, 11, i64::MAX, i64::MAX),
    ] {
        assert!(rect.clamp(10, 10).width == 0 || rect.clamp(10, 10).height == 0);
        let outcome = sorter.crop_and_sort(&image, &rect, SortingAlgorithm::Horizontal, &p).unwrap();
        assert!(matches!(outcome, CropOutcome::NoOp));
    }
}

#[test]
fn an_inverted_or_flat_rectangle_is_a_no_op() {
    let image = gradient(10, 10);
    let sorter = PixelSorter::new();
    let p = SortingParameters::default();
    for rect in [
        Rectangle::new(6, 2, 2, 6),
        Rectangle::new(2, 6, 6, 2),
        Rectangle::new(3, 3, 3, 8),
        Rectangle::new(3, 3, 8, 3),
    ] {
        let outcome = sorter.crop_and_sort(&image, &rect, SortingAlgorithm::Horizontal, &p).unwrap();
        assert!(matches!(outcome, CropOutcome::NoOp));
    }
}

#[test]
fn a_no_op_comes_before_the_parameters_are_looked_at() {
    let image = gradient(10, 10);
    let bad = SortingParameters { interval: 0, ..SortingParameters::default() };
    let sorter = PixelSorter::new();
    let outside = Rectangle::new(20, 20, 30, 30);
    let outcome = sorter.crop_and_sort(&image, &outside, SortingAlgorithm::Horizontal, &bad).unwrap();
    assert!(matches!(outcome, CropOutcome::NoOp));
    let inside = Rectangle::new(1, 1, 3, 3);
    let r = sorter.crop_and_sort(&image, &inside, SortingAlgorithm::Horizontal, &bad);
    assert_eq!(r.err(), Some(SortError::InvalidParameters));
}

#[test]
fn clamping_moves_each_corner_into_the_image() {
    assert_eq!(
        Rectangle::new(-5, 3, 7, 40).clamp(10, 20),
        Region { x: 0, y: 3, width: 7, height: 17 }
    );
    assert_eq!(
        Rectangle::new(2, 2, 6, 6).clamp(10, 10),
        Region { x: 2, y: 2, width: 4, height: 4 }
    );
    assert_eq!(
        Rectangle::new(0, 0, 10, 10).clamp(10, 10),
        Region { x: 0, y: 0, width: 10, height: 10 }
    );
    assert_eq!(
        Rectangle::new(12, 5, 30, 8).clamp(10, 10),
        Region { x: 10, y: 5, width: 0, height: 3 }
    );
}

#[test]
fn image_constructors_check_the_pixel_count() {
    assert!(Image::from_pixels(2, 2, vec![grey(1); 4]).is_some());
    assert!(Image::from_pixels(2, 2, vec![grey(1); 3]).is_none());
    assert!(Image::from_pixels(2, 2, vec![grey(1); 5]).is_none());
    let black = Image::new(3, 2).unwrap();
    assert_eq!(black.dimensions(), (3, 2));
    assert_eq!(black.to_pixels(), vec![grey(0); 6]);
}

#[test]
fn image_pixels_are_row_major() {
    let image = grey_image(3, 2, &[1, 2, 3, 4, 5, 6]);
    assert_eq!(image.get_pixel(0, 0), grey(1));
    assert_eq!(image.get_pixel(2, 0), grey(3));
    assert_eq!(image.get_pixel(0, 1), grey(4));
    assert_eq!(image.get_pixel(2, 1), grey(6));
    assert_eq!(image.get_pixel_checked(1, 1), Some(grey(5)));
    assert_eq!(image.get_pixel_checked(3, 0), None);
    assert_eq!(image.get_pixel_checked(0, 2), None);
    assert_eq!(image.duplicate().to_pixels(), image.to_pixels());
}

#[test]
fn raw_bytes_spell_pixels_three_by_three() {
    let image = Image::from_raw(2, 2, &[1, 2, 3, 4, 5, 6, 7, 8, 9, 10, 11, 12]).unwrap();
    assert_eq!(image.dimensions(), (2, 2));
    assert_eq!(image.get_pixel(0, 0), Rgb::new(1, 2, 3));
    assert_eq!(image.get_pixel(1, 0), Rgb::new(4, 5, 6));
    assert_eq!(image.get_pixel(0, 1), Rgb::new(7, 8, 9));
    assert_eq!(image.get_pixel(1, 1), Rgb::new(10, 11, 12));
    assert_eq!(image.to_raw(), vec![1, 2, 3, 4, 5, 6, 7, 8, 9, 10, 11, 12]);
}

#[test]
fn raw_bytes_of_the_wrong_length_are_refused() {
    assert!(Image::from_raw(2, 2, &[0; 11]).is_none());
    assert!(Image::from_raw(2, 2, &[0; 13]).is_none());
    assert!(Image::from_raw(2, 2, &[0; 4]).is_none());
    assert!(Image::from_raw(0, 7, &[]).is_some());
    assert!(Image::from_raw(0, 7, &[0; 3]).is_none());
    assert!(Image::from_raw(u32::MAX, u32::MAX, &[0; 3]).is_none());
}

#[test]
fn an_rgb_buffer_goes_through_the_engine_and_back() {
    let mut buffer = image::RgbImage::new(3, 2);
    for (i, p) in buffer.pixels_mut().enumerate() {
        let v = 60 - 10 * i as u8;
        p.0 = [v, v, v];
    }
    let (w, h) = buffer.dimensions();
    let image = Image::from_raw(w, h, buffer.as_raw()).unwrap();
    assert_eq!(image.get_pixel(1, 0), grey(50));
    let sorted = PixelSorter::new()
        .sort_pixels(&image, SortingAlgorithm::Horizontal, &params(0, 10))
        .unwrap();
    let out = image::RgbImage::from_raw(w, h, sorted.to_raw()).unwrap();
    assert_eq!(out.get_pixel(0, 0).0, [40, 40, 40]);
    assert_eq!(out.get_pixel(2, 0).0, [60, 60, 60]);
    assert_eq!(out.get_pixel(0, 1).0, [10, 10, 10]);
    assert_eq!(out.get_pixel(2, 1).0, [30, 30, 30]);
}
