use pixelsort::color::Rgb;
use pixelsort::key::SortMode;

#[test]
fn brightness_of_a_grey_is_its_level_in_thousandths() {
    assert_eq!(Rgb::new(0, 0, 0).brightness(), 0);
    assert_eq!(Rgb::new(10, 10, 10).brightness(), 10_000);
    assert_eq!(Rgb::new(255, 255, 255).brightness(), 255_000);
}

#[test]
fn brightness_weighs_the_channels() {
    assert_eq!(Rgb::new(255, 0, 0).brightness(), 299 * 255);
    assert_eq!(Rgb::new(0, 255, 0).brightness(), 587 * 255);
    assert_eq!(Rgb::new(0, 0, 255).brightness(), 114 * 255);
    assert_eq!(Rgb::new(10, 20, 30).brightness(), 2990 + 11740 + 3420);
}

#[test]
fn hue_of_the_primaries_and_secondaries() {
    assert_eq!(Rgb::new(255, 0, 0).hue(), 0);
    assert_eq!(Rgb::new(255, 255, 0).hue(), 60_000);
    assert_eq!(Rgb::new(0, 255, 0).hue(), 120_000);
    assert_eq!(Rgb::new(0, 255, 255).hue(), 180_000);
    assert_eq!(Rgb::new(0, 0, 255).hue(), 240_000);
    assert_eq!(Rgb::new(255, 0, 255).hue(), 300_000);
}

#[test]
fn hue_of_a_grey_is_zero() {
    assert_eq!(Rgb::new(0, 0, 0).hue(), 0);
    assert_eq!(Rgb::new(77, 77, 77).hue(), 0);
    assert_eq!(Rgb::new(255, 255, 255).hue(), 0);
}

#[test]
fn hue_is_rounded_down_to_a_thousandth_of_a_degree() {
    // 60 * 128 / 255 = 30.1176...
    assert_eq!(Rgb::new(255, 128, 0).hue(), 30_117);
    // 60 * 50 / 150 = 20
    assert_eq!(Rgb::new(200, 100, 50).hue(), 20_000);
    // 360 - 60 * 1 / 255 = 359.7647...
    assert_eq!(Rgb::new(255, 0, 1).hue(), 359_764);
}

#[test]
fn hue_stays_below_a_whole_turn() {
    for r in [0u8, 1, 127, 254, 255] {
        for g in [0u8, 1, 127, 254, 255] {
            for b in [0u8, 1, 127, 254, 255] {
                assert!(Rgb::new(r, g, b).hue() < 360_000);
            }
        }
    }
}

#[test]
fn sort_key_follows_the_mode() {
    let p = Rgb::new(200, 100, 50);
    assert_eq!(p.sort_key(SortMode::Brightness), 299 * 200 + 587 * 100 + 114 * 50);
    assert_eq!(p.sort_key(SortMode::Hue), 20_000);
    assert_eq!(p.sort_key(SortMode::Red), 200);
    assert_eq!(p.sort_key(SortMode::Green), 100);
    assert_eq!(p.sort_key(SortMode::Blue), 50);
}

#[test]
fn max_and_min_channel() {
    let p = Rgb::new(3, 9, 6);
    assert_eq!(p.max_channel(), 9);
    assert_eq!(p.min_channel(), 3);
    let q = Rgb::new(5, 5, 5);
    assert_eq!(q.max_channel(), 5);
    assert_eq!(q.min_channel(), 5);
}

#[test]
fn rotation_by_a_third_of_a_turn_cycles_the_primaries() {
    assert_eq!(Rgb::new(255, 0, 0).rotate_hue(120), Rgb::new(0, 255, 0));
    assert_eq!(Rgb::new(0, 255, 0).rotate_hue(120), Rgb::new(0, 0, 255));
    assert_eq!(Rgb::new(0, 0, 255).rotate_hue(120), Rgb::new(255, 0, 0));
    assert_eq!(Rgb::new(255, 0, 0).rotate_hue(240), Rgb::new(0, 0, 255));
}

#[test]
fn rotation_by_a_sixth_of_a_turn() {
    assert_eq!(Rgb::new(255, 0, 0).rotate_hue(60), Rgb::new(255, 255, 0));
    assert_eq!(Rgb::new(255, 0, 0).rotate_hue(180), Rgb::new(0, 255, 255));
    assert_eq!(Rgb::new(255, 0, 0).rotate_hue(300), Rgb::new(255, 0, 255));
}

#[test]
fn rotation_rounds_the_middle_channel() {
    // hue 20 degrees, turned to 110: sector 1, the red channel falls:
    // 50 + round(150 * 10 / 60) = 50 + 25
    assert_eq!(Rgb::new(200, 100, 50).rotate_hue(90), Rgb::new(75, 200, 50));
    // hue 20 degrees, turned to 30: 50 + round(150 * 30 / 60) = 125
    assert_eq!(Rgb::new(200, 100, 50).rotate_hue(10), Rgb::new(200, 125, 50));
}

#[test]
fn rotation_by_nothing_changes_nothing() {
    for r in [0u8, 1, 50, 127, 128, 200, 254, 255] {
        for g in [0u8, 1, 50, 127, 128, 200, 254, 255] {
            for b in [0u8, 1, 50, 127, 128, 200, 254, 255] {
                let p = Rgb::new(r, g, b);
                assert_eq!(p.rotate_hue(0), p);
                assert_eq!(p.rotate_hue(360), p);
            }
        }
    }
}

#[test]
fn rotation_leaves_greys_alone() {
    assert_eq!(Rgb::new(90, 90, 90).rotate_hue(123), Rgb::new(90, 90, 90));
    assert_eq!(Rgb::new(0, 0, 0).rotate_hue(359), Rgb::new(0, 0, 0));
}

#[test]
fn rotation_keeps_value_and_saturation() {
    for degrees in [1u32, 17, 59, 60, 61, 119, 180, 255, 300, 359] {
        for p in [Rgb::new(200, 100, 50), Rgb::new(1, 2, 3), Rgb::new(255, 0, 128), Rgb::new(9, 250, 9)] {
            let q = p.rotate_hue(degrees);
            assert_eq!(q.max_channel(), p.max_channel());
            assert_eq!(q.min_channel(), p.min_channel());
        }
    }
}

#[test]
fn sort_modes_cycle() {
    let all = SortMode::all();
    assert_eq!(
        all,
        [SortMode::Brightness, SortMode::Hue, SortMode::Red, SortMode::Green, SortMode::Blue]
    );
    for i in 0..all.len() {
        assert_eq!(all[i].next(), all[(i + 1) % all.len()]);
    }
}

#[test]
fn sort_modes_have_names() {
    assert_eq!(SortMode::Brightness.name(), "Brightness");
    assert_eq!(SortMode::Hue.name(), "Hue");
    assert_eq!(SortMode::Red.name(), "Red");
    assert_eq!(SortMode::Green.name(), "Green");
    assert_eq!(SortMode::Blue.name(), "Blue");
}
