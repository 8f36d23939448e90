use pixelsort::color::Rgb;
use pixelsort::key::SortMode;
use pixelsort::line::sort_line;
use pixelsort::params::SortError;
use pixelsort::segment::{segment_runs, Run};
use pixelsort::sorter::sort_run;

fn grey(v: u8) -> Rgb {
    Rgb::new(v, v, v)
}

fn greys(levels: &[u8]) -> Vec<Rgb> {
    levels.iter().map(|v| grey(*v)).collect()
}

fn bounds(runs: &[Run]) -> Vec<(usize, usize)> {
    runs.iter().map(|r| (r.start, r.end)).collect()
}

#[test]
fn segmenter_makes_singletons_of_pixels_under_the_threshold() {
    let line = greys(&[10, 200, 50, 220]);
    let runs = segment_runs(&line, 100, 50).unwrap();
    assert_eq!(bounds(&runs), vec![(0, 1), (1, 2), (2, 3), (3, 4)]);
}

#[test]
fn segmenter_joins_neighbours_that_pass() {
    let line = greys(&[10, 200, 210, 50, 220, 230, 240]);
    let runs = segment_runs(&line, 100, 50).unwrap();
    assert_eq!(bounds(&runs), vec![(0, 1), (1, 3), (3, 4), (4, 7)]);
}

#[test]
fn segmenter_splits_at_the_interval() {
    let line = greys(&[200, 200, 200, 200, 200, 200, 200]);
    let runs = segment_runs(&line, 100, 3).unwrap();
    assert_eq!(bounds(&runs), vec![(0, 3), (3, 6), (6, 7)]);
}

#[test]
fn segmenter_splits_each_stretch_on_its_own() {
    let line = greys(&[0, 200, 200, 200, 200, 200, 0, 200, 200, 200]);
    let runs = segment_runs(&line, 100, 2).unwrap();
    assert_eq!(bounds(&runs), vec![(0, 1), (1, 3), (3, 5), (5, 6), (6, 7), (7, 9), (9, 10)]);
}

#[test]
fn segmenter_with_an_interval_of_one_makes_singletons() {
    let line = greys(&[200, 200, 200]);
    let runs = segment_runs(&line, 100, 1).unwrap();
    assert_eq!(bounds(&runs), vec![(0, 1), (1, 2), (2, 3)]);
}

#[test]
fn segmenter_with_an_interval_beyond_the_line() {
    let line = greys(&[200, 200, 200]);
    let runs = segment_runs(&line, 100, u32::MAX).unwrap();
    assert_eq!(bounds(&runs), vec![(0, 3)]);
}

#[test]
fn segmenter_counts_a_pixel_at_the_threshold_as_passing() {
    let line = greys(&[100, 99, 100, 100]);
    let runs = segment_runs(&line, 100, 10).unwrap();
    assert_eq!(bounds(&runs), vec![(0, 1), (1, 2), (2, 4)]);
}

#[test]
fn segmenter_gates_on_brightness() {
    // brightness 76.245 and 149.685
    let line = vec![Rgb::new(255, 0, 0), Rgb::new(0, 255, 0)];
    assert_eq!(bounds(&segment_runs(&line, 76, 10).unwrap()), vec![(0, 2)]);
    assert_eq!(bounds(&segment_runs(&line, 77, 10).unwrap()), vec![(0, 1), (1, 2)]);
    assert_eq!(bounds(&segment_runs(&line, 150, 10).unwrap()), vec![(0, 1), (1, 2)]);
}

#[test]
fn segmenter_of_an_empty_line() {
    let runs = segment_runs(&Vec::new(), 100, 3).unwrap();
    assert!(runs.is_empty());
}

#[test]
fn segmenter_with_threshold_zero_passes_everything() {
    let line = greys(&[0, 0, 0, 0]);
    let runs = segment_runs(&line, 0, 3).unwrap();
    assert_eq!(bounds(&runs), vec![(0, 3), (3, 4)]);
}

#[test]
fn segmenter_refuses_an_interval_of_zero() {
    assert_eq!(segment_runs(&greys(&[1, 2]), 10, 0), Err(SortError::InvalidParameters));
}

#[test]
fn segmenter_refuses_a_threshold_above_the_levels() {
    assert_eq!(segment_runs(&greys(&[1, 2]), 256, 5), Err(SortError::InvalidParameters));
    assert!(segment_runs(&greys(&[1, 2]), 255, 5).is_ok());
}

#[test]
fn runs_cover_the_line_without_gaps() {
    let line = greys(&[5, 250, 251, 252, 3, 4, 253, 254, 255, 200, 201, 1]);
    for interval in 1..6u32 {
        let runs = segment_runs(&line, 100, interval).unwrap();
        let mut at = 0;
        for r in runs.iter() {
            assert_eq!(r.start, at);
            assert!(r.end > r.start);
            assert!(r.end - r.start <= interval as usize);
            at = r.end;
        }
        assert_eq!(at, line.len());
    }
}

#[test]
fn sorter_orders_by_key() {
    let mut run = greys(&[30, 10, 20]);
    sort_run(&mut run, SortMode::Brightness);
    assert_eq!(run, greys(&[10, 20, 30]));
}

#[test]
fn sorter_is_stable() {
    let mut run = vec![
        Rgb::new(5, 1, 0),
        Rgb::new(3, 2, 0),
        Rgb::new(5, 3, 0),
        Rgb::new(3, 4, 0),
        Rgb::new(5, 5, 0),
    ];
    sort_run(&mut run, SortMode::Red);
    assert_eq!(
        run,
        vec![
            Rgb::new(3, 2, 0),
            Rgb::new(3, 4, 0),
            Rgb::new(5, 1, 0),
            Rgb::new(5, 3, 0),
            Rgb::new(5, 5, 0),
        ]
    );
}

#[test]
fn sorter_conserves_the_colours() {
    let mut run = vec![
        Rgb::new(9, 1, 7),
        Rgb::new(3, 2, 0),
        Rgb::new(9, 1, 7),
        Rgb::new(0, 200, 0),
        Rgb::new(5, 5, 5),
    ];
    let mut before = run.clone();
    sort_run(&mut run, SortMode::Hue);
    let mut after = run.clone();
    before.sort_by_key(|p| (p.r, p.g, p.b));
    after.sort_by_key(|p| (p.r, p.g, p.b));
    assert_eq!(before, after);
}

#[test]
fn sorter_by_each_channel() {
    let a = Rgb::new(1, 30, 200);
    let b = Rgb::new(2, 20, 100);
    let c = Rgb::new(3, 10, 150);
    let mut run = vec![c, a, b];
    sort_run(&mut run, SortMode::Red);
    assert_eq!(run, vec![a, b, c]);
    sort_run(&mut run, SortMode::Green);
    assert_eq!(run, vec![c, b, a]);
    sort_run(&mut run, SortMode::Blue);
    assert_eq!(run, vec![b, c, a]);
}

#[test]
fn sorter_by_hue() {
    let red = Rgb::new(255, 0, 0);
    let green = Rgb::new(0, 255, 0);
    let blue = Rgb::new(0, 0, 255);
    let mut run = vec![blue, red, green];
    sort_run(&mut run, SortMode::Hue);
    assert_eq!(run, vec![red, green, blue]);
}

#[test]
fn sorter_of_nothing_and_of_one() {
    let mut none: Vec<Rgb> = Vec::new();
    sort_run(&mut none, SortMode::Brightness);
    assert!(none.is_empty());
    let mut one = greys(&[7]);
    sort_run(&mut one, SortMode::Brightness);
    assert_eq!(one, greys(&[7]));
}

#[test]
fn sorting_a_sorted_run_changes_nothing() {
    let mut run = greys(&[9, 3, 7, 3, 1]);
    sort_run(&mut run, SortMode::Brightness);
    let once = run.clone();
    sort_run(&mut run, SortMode::Brightness);
    assert_eq!(run, once);
}

#[test]
fn line_sort_keeps_pixels_in_their_runs() {
    let mut line = greys(&[60, 50, 40, 30, 20, 10]);
    assert_eq!(sort_line(&mut line, 5, 3, SortMode::Brightness), Ok(()));
    assert_eq!(line, greys(&[40, 50, 60, 10, 20, 30]));
}

#[test]
fn line_sort_leaves_pixels_under_the_threshold_in_place() {
    let mut line = greys(&[250, 200, 10, 240, 230, 220, 5, 210]);
    assert_eq!(sort_line(&mut line, 100, 50, SortMode::Brightness), Ok(()));
    assert_eq!(line, greys(&[200, 250, 10, 220, 230, 240, 5, 210]));
}

#[test]
fn line_sort_twice_is_line_sort_once() {
    let mut line = greys(&[250, 200, 10, 240, 230, 220, 5, 210, 205, 203, 201]);
    sort_line(&mut line, 100, 2, SortMode::Brightness).unwrap();
    let once = line.clone();
    sort_line(&mut line, 100, 2, SortMode::Brightness).unwrap();
    assert_eq!(line, once);
}

#[test]
fn line_sort_refuses_bad_parameters_and_keeps_the_line() {
    let mut line = greys(&[3, 2, 1]);
    assert_eq!(sort_line(&mut line, 0, 0, SortMode::Brightness), Err(SortError::InvalidParameters));
    assert_eq!(sort_line(&mut line, 300, 2, SortMode::Brightness), Err(SortError::InvalidParameters));
    assert_eq!(line, greys(&[3, 2, 1]));
}
