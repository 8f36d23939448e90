use pixelsort::icon::default_icon;
use pixelsort::kiosk::{
    message_expired, preview_due, FrameAction, FrameInput, KioskState, Screen,
};
use pixelsort::power::{BatteryLevel, BatteryStatus};

fn quiet(now: u64) -> FrameInput {
    FrameInput {
        now,
        shutdown_requested: false,
        escape_pressed: false,
        corner_tapped: false,
        has_interaction: false,
    }
}

fn touch(now: u64) -> FrameInput {
    FrameInput { has_interaction: true, ..quiet(now) }
}

fn tap(now: u64) -> FrameInput {
    FrameInput { corner_tapped: true, has_interaction: true, ..quiet(now) }
}

fn past_splash() -> KioskState {
    let mut kiosk = KioskState::new(0);
    assert_eq!(kiosk.on_frame(&touch(2001)).screen, Screen::Main);
    kiosk
}

#[test]
fn the_splash_screen_stands_for_two_seconds() {
    let mut kiosk = KioskState::new(1000);
    assert!(kiosk.show_splash);
    assert_eq!(kiosk.on_frame(&quiet(1000)).screen, Screen::Splash);
    assert_eq!(kiosk.on_frame(&quiet(3000)).screen, Screen::Splash);
    assert!(kiosk.show_splash);
    assert_eq!(kiosk.update_check_time, None);
    assert_eq!(kiosk.on_frame(&quiet(3001)).screen, Screen::Main);
    assert!(!kiosk.show_splash);
    assert_eq!(kiosk.update_check_time, Some(3001));
}

#[test]
fn a_clock_that_shows_less_than_the_start_keeps_the_splash() {
    let mut kiosk = KioskState::new(5000);
    assert_eq!(kiosk.on_frame(&quiet(10)).screen, Screen::Splash);
}

#[test]
fn a_shutdown_request_closes_the_window() {
    let mut kiosk = KioskState::new(0);
    let before = kiosk;
    let input = FrameInput { shutdown_requested: true, escape_pressed: true, ..tap(10) };
    assert_eq!(
        kiosk.on_frame(&input),
        FrameAction { screen: Screen::Close, check_for_updates: false }
    );
    assert_eq!(kiosk, before);
}

#[test]
fn the_update_check_is_made_once_thirty_seconds_behind_the_splash() {
    let mut kiosk = past_splash();
    assert_eq!(kiosk.update_check_time, Some(2001));
    assert!(!kiosk.on_frame(&touch(32_000)).check_for_updates);
    assert!(kiosk.on_frame(&touch(32_001)).check_for_updates);
    assert!(kiosk.startup_check_done);
    assert!(!kiosk.on_frame(&touch(32_002)).check_for_updates);
    assert!(!kiosk.on_frame(&touch(90_000)).check_for_updates);
}

#[test]
fn the_kiosk_sleeps_after_five_idle_minutes_and_wakes_on_touch() {
    let mut kiosk = past_splash();
    assert_eq!(kiosk.on_frame(&quiet(302_000)).screen, Screen::Main);
    assert_eq!(kiosk.on_frame(&quiet(302_001)).screen, Screen::Sleep);
    assert!(kiosk.is_sleeping);
    assert_eq!(kiosk.on_frame(&quiet(400_000)).screen, Screen::Sleep);
    assert_eq!(kiosk.on_frame(&touch(400_100)).screen, Screen::Waking);
    assert!(!kiosk.is_sleeping);
    assert!(kiosk.is_waking);
    assert_eq!(kiosk.wake_start_time, Some(400_100));
    assert_eq!(kiosk.on_frame(&quiet(401_099)).screen, Screen::Waking);
    assert_eq!(kiosk.on_frame(&quiet(401_100)).screen, Screen::Main);
    assert!(!kiosk.is_waking);
    assert_eq!(kiosk.wake_start_time, None);
    assert_eq!(kiosk.last_interaction_time, 400_100);
}

#[test]
fn five_taps_open_the_menu() {
    let mut kiosk = past_splash();
    for (i, now) in [3000u64, 3500, 4000, 4500].iter().enumerate() {
        kiosk.on_frame(&tap(*now));
        assert_eq!(kiosk.exit_tap_count, i as u32 + 1);
        assert!(!kiosk.show_developer_menu);
    }
    kiosk.on_frame(&tap(5000));
    assert!(kiosk.show_developer_menu);
    assert_eq!(kiosk.exit_tap_count, 0);
}

#[test]
fn a_pause_of_four_seconds_starts_the_count_anew() {
    let mut kiosk = past_splash();
    kiosk.on_frame(&tap(3000));
    kiosk.on_frame(&tap(3100));
    kiosk.on_frame(&tap(3200));
    assert_eq!(kiosk.exit_tap_count, 3);
    kiosk.on_frame(&tap(7199));
    assert_eq!(kiosk.exit_tap_count, 4);
    kiosk.on_frame(&tap(11_199));
    assert_eq!(kiosk.exit_tap_count, 1);
    assert!(!kiosk.show_developer_menu);
}

#[test]
fn a_tap_count_from_elsewhere_does_not_overflow() {
    let mut kiosk = past_splash();
    kiosk.exit_tap_count = u32::MAX;
    kiosk.on_frame(&tap(3000));
    assert!(kiosk.show_developer_menu);
    assert_eq!(kiosk.exit_tap_count, 0);
}

#[test]
fn escape_opens_and_shuts_the_menu() {
    let mut kiosk = past_splash();
    let escape = FrameInput { escape_pressed: true, has_interaction: true, ..quiet(3000) };
    kiosk.on_frame(&escape);
    assert!(kiosk.show_developer_menu);
    kiosk.on_frame(&escape);
    assert!(!kiosk.show_developer_menu);
}

#[test]
fn taps_count_while_the_splash_stands() {
    let mut kiosk = KioskState::new(0);
    assert_eq!(kiosk.on_frame(&tap(100)).screen, Screen::Splash);
    assert_eq!(kiosk.exit_tap_count, 1);
    assert_eq!(kiosk.exit_tap_last_time, Some(100));
    assert_eq!(kiosk.last_interaction_time, 0);
}

#[test]
fn a_new_usb_drive_opens_the_export_dialog() {
    let mut kiosk = past_splash();
    assert!(kiosk.usb_check_due(5000));
    kiosk.record_usb(5000, false);
    assert!(!kiosk.show_usb_export_dialog);
    assert!(!kiosk.usb_check_due(6999));
    assert!(kiosk.usb_check_due(7000));
    kiosk.record_usb(7000, true);
    assert!(kiosk.show_usb_export_dialog);
    assert!(kiosk.prev_usb_present);
    assert_eq!(kiosk.last_usb_check, Some(7000));
    kiosk.show_usb_export_dialog = false;
    kiosk.record_usb(9000, true);
    assert!(!kiosk.show_usb_export_dialog);
    kiosk.record_usb(11_000, false);
    kiosk.record_usb(13_000, true);
    assert!(kiosk.show_usb_export_dialog);
}

#[test]
fn messages_are_taken_down_after_four_seconds() {
    assert!(!message_expired(1000, 1000));
    assert!(!message_expired(4999, 1000));
    assert!(message_expired(5000, 1000));
    assert!(!message_expired(10, 1000));
}

#[test]
fn the_preview_is_due_every_thirty_three_milliseconds() {
    assert!(preview_due(0, None));
    assert!(!preview_due(132, Some(100)));
    assert!(preview_due(133, Some(100)));
    assert!(!preview_due(50, Some(100)));
}

#[test]
fn the_default_icon_is_a_gradient() {
    let icon = default_icon();
    assert_eq!((icon.width, icon.height), (64, 64));
    assert_eq!(icon.rgba.len(), 64 * 64 * 4);
    assert_eq!(&icon.rgba[0..4], &[0u8, 0, 150, 255]);
    let at = |x: usize, y: usize| -> [u8; 4] {
        let i = (y * 64 + x) * 4;
        [icon.rgba[i], icon.rgba[i + 1], icon.rgba[i + 2], icon.rgba[i + 3]]
    };
    assert_eq!(at(63, 0), [251, 0, 150, 255]);
    assert_eq!(at(0, 63), [0, 251, 150, 255]);
    assert_eq!(at(32, 16), [127, 63, 150, 255]);
    assert_eq!(at(1, 2), [3, 7, 150, 255]);
}

#[test]
fn the_battery_level_follows_charge_and_charging() {
    let status = |percentage: u32, is_charging: bool| BatteryStatus {
        voltage: 7000,
        percentage,
        is_charging,
        is_available: true,
    };
    assert_eq!(status(5, true).level(), BatteryLevel::Charging);
    assert_eq!(status(90, true).level(), BatteryLevel::Charging);
    assert_eq!(status(0, false).level(), BatteryLevel::Low);
    assert_eq!(status(19, false).level(), BatteryLevel::Low);
    assert_eq!(status(20, false).level(), BatteryLevel::Medium);
    assert_eq!(status(39, false).level(), BatteryLevel::Medium);
    assert_eq!(status(40, false).level(), BatteryLevel::Good);
    assert_eq!(status(100, false).level(), BatteryLevel::Good);
}
