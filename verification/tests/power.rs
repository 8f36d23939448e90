use pixelsort::power::{
    charging_reported, gauge_reading, get_battery_status, is_on_battery, is_shutdown_requested,
    mains_status, microvolt_reading, start_monitoring, voltage_to_percentage, BatteryStatus,
    MonitorAction, MonitorEvent, MonitorPhase, Reading, UpsConfig,
};

fn enabled() -> UpsConfig {
    UpsConfig { enabled: true, voltage_threshold: 6400, check_interval_secs: 5, ..UpsConfig::default() }
}

#[test]
fn default_configuration_is_switched_off() {
    let config = UpsConfig::default();
    assert!(!config.enabled);
    assert_eq!(config.i2c_bus, 1);
    assert_eq!(config.i2c_address, 0x36);
    assert_eq!(config.voltage_threshold, 3200);
    assert_eq!(config.check_interval_secs, 5);
}

#[test]
fn default_status_knows_nothing() {
    assert_eq!(
        BatteryStatus::default(),
        BatteryStatus { voltage: 0, percentage: 0, is_charging: false, is_available: false }
    );
}

#[test]
fn percentage_is_in_proportion_to_the_voltage() {
    assert_eq!(voltage_to_percentage(8400, 6400), 100);
    assert_eq!(voltage_to_percentage(9000, 6400), 100);
    assert_eq!(voltage_to_percentage(6400, 6400), 0);
    assert_eq!(voltage_to_percentage(1000, 6400), 0);
    assert_eq!(voltage_to_percentage(7400, 6400), 50);
    assert_eq!(voltage_to_percentage(7800, 6400), 70);
    assert_eq!(voltage_to_percentage(6419, 6400), 0);
    assert_eq!(voltage_to_percentage(6420, 6400), 1);
    assert_eq!(voltage_to_percentage(7800, 3200), 88);
}

#[test]
fn percentage_with_a_threshold_at_or_above_the_full_voltage() {
    assert_eq!(voltage_to_percentage(8400, 8400), 0);
    assert_eq!(voltage_to_percentage(8401, 8400), 100);
    assert_eq!(voltage_to_percentage(9000, 9500), 0);
    assert_eq!(voltage_to_percentage(9501, 9500), 100);
}

#[test]
fn a_disabled_monitor_stops_at_once() {
    let (mut monitor, action) = start_monitoring(UpsConfig::default());
    assert_eq!(action, MonitorAction::Stop);
    assert_eq!(monitor.phase, MonitorPhase::Disabled);
    let reading = Reading { voltage: 1000, is_charging: false };
    assert_eq!(monitor.step(MonitorEvent::Read(Some(reading))), MonitorAction::Stop);
    assert!(!is_shutdown_requested(&monitor));
    assert!(!get_battery_status(&monitor).is_available);
}

#[test]
fn the_first_reading_fills_the_status_and_decides_nothing() {
    let (mut monitor, action) = start_monitoring(enabled());
    assert_eq!(action, MonitorAction::ReadNow);
    let low = Reading { voltage: 6000, is_charging: false };
    assert_eq!(monitor.step(MonitorEvent::Read(Some(low))), MonitorAction::ReadAfter(5));
    assert_eq!(monitor.phase, MonitorPhase::Watching);
    assert_eq!(
        get_battery_status(&monitor),
        BatteryStatus { voltage: 6000, percentage: 0, is_charging: false, is_available: true }
    );
}

#[test]
fn a_healthy_battery_is_read_again_after_the_interval() {
    let (mut monitor, _) = start_monitoring(enabled());
    monitor.step(MonitorEvent::Read(None));
    assert!(!get_battery_status(&monitor).is_available);
    let good = Reading { voltage: 7800, is_charging: false };
    assert_eq!(monitor.step(MonitorEvent::Read(Some(good))), MonitorAction::ReadAfter(5));
    assert_eq!(get_battery_status(&monitor).percentage, 70);
    assert_eq!(monitor.step(MonitorEvent::Read(None)), MonitorAction::ReadAfter(5));
    assert_eq!(get_battery_status(&monitor).voltage, 7800);
    let charging = Reading { voltage: 6000, is_charging: true };
    assert_eq!(monitor.step(MonitorEvent::Read(Some(charging))), MonitorAction::ReadAfter(5));
    assert!(get_battery_status(&monitor).is_charging);
    let at_threshold = Reading { voltage: 6400, is_charging: false };
    assert_eq!(monitor.step(MonitorEvent::Read(Some(at_threshold))), MonitorAction::ReadAfter(5));
    assert_eq!(monitor.phase, MonitorPhase::Watching);
}

#[test]
fn a_low_battery_is_warned_of_six_times_and_then_shut_down() {
    let (mut monitor, _) = start_monitoring(enabled());
    monitor.step(MonitorEvent::Read(None));
    let low = Reading { voltage: 6399, is_charging: false };
    assert_eq!(monitor.step(MonitorEvent::Read(Some(low))), MonitorAction::Warn(30));
    assert_eq!(monitor.phase, MonitorPhase::Warning(6));
    for seconds in [25u32, 20, 15, 10, 5] {
        assert!(!is_shutdown_requested(&monitor));
        assert_eq!(monitor.step(MonitorEvent::WarningElapsed), MonitorAction::Warn(seconds));
    }
    assert!(!is_shutdown_requested(&monitor));
    assert_eq!(monitor.step(MonitorEvent::WarningElapsed), MonitorAction::Shutdown);
    assert!(is_shutdown_requested(&monitor));
    assert_eq!(monitor.step(MonitorEvent::WarningElapsed), MonitorAction::Stop);
    let good = Reading { voltage: 8000, is_charging: true };
    assert_eq!(monitor.step(MonitorEvent::Read(Some(good))), MonitorAction::Stop);
    assert!(is_shutdown_requested(&monitor));
    assert_eq!(get_battery_status(&monitor).voltage, 6399);
}

#[test]
fn events_that_are_not_awaited_are_ignored() {
    let (mut monitor, _) = start_monitoring(enabled());
    assert_eq!(monitor.step(MonitorEvent::WarningElapsed), MonitorAction::Ignored);
    assert_eq!(monitor.phase, MonitorPhase::Starting);
    monitor.step(MonitorEvent::Read(None));
    assert_eq!(monitor.step(MonitorEvent::WarningElapsed), MonitorAction::Ignored);
    assert_eq!(monitor.phase, MonitorPhase::Watching);
    let low = Reading { voltage: 100, is_charging: false };
    monitor.step(MonitorEvent::Read(Some(low)));
    assert_eq!(monitor.step(MonitorEvent::Read(None)), MonitorAction::Ignored);
    assert_eq!(monitor.phase, MonitorPhase::Warning(6));
}

#[test]
fn the_first_source_that_could_be_read_decides() {
    assert!(!is_on_battery(&vec![]));
    assert!(!is_on_battery(&vec![None, None]));
    assert!(is_on_battery(&vec![Some(0)]));
    assert!(!is_on_battery(&vec![Some(1)]));
    assert!(is_on_battery(&vec![None, Some(0)]));
    assert!(!is_on_battery(&vec![None, Some(1), Some(0)]));
    assert!(is_on_battery(&vec![Some(0), Some(1)]));
    assert!(!is_on_battery(&vec![Some(7), Some(0)]));
}

#[test]
fn charging_is_told_from_the_status_text() {
    assert!(charging_reported(b"Charging\n"));
    assert!(charging_reported(b"charging"));
    assert!(charging_reported(b"  NOT CHARGING  "));
    assert!(charging_reported(b"Discharging\n"));
    assert!(!charging_reported(b"Full\n"));
    assert!(!charging_reported(b"chargin"));
    assert!(!charging_reported(b"charg ing"));
    assert!(!charging_reported(b""));
}

#[test]
fn microvolts_are_read_to_the_nearest_millivolt() {
    assert_eq!(
        microvolt_reading(b"7800000\n", false),
        Some(Reading { voltage: 7800, is_charging: false })
    );
    assert_eq!(
        microvolt_reading(b"  7800499 ", true),
        Some(Reading { voltage: 7800, is_charging: true })
    );
    assert_eq!(microvolt_reading(b"7800500", false).unwrap().voltage, 7801);
    assert_eq!(microvolt_reading(b"0", false).unwrap().voltage, 0);
    assert_eq!(microvolt_reading(b"18446744073709551615", false).unwrap().voltage, u32::MAX);
    assert_eq!(microvolt_reading(b"4294967295499", false).unwrap().voltage, u32::MAX);
    assert_eq!(microvolt_reading(b"4294967294499", false).unwrap().voltage, u32::MAX - 1);
    assert_eq!(microvolt_reading(b"", false), None);
    assert_eq!(microvolt_reading(b"7.8", false), None);
    assert_eq!(microvolt_reading(b"-5", false), None);
    assert_eq!(microvolt_reading(b"18446744073709551616", false), None);
}

#[test]
fn the_gauge_counts_steps_of_four_millivolts() {
    // 0x3CF0 >> 3 = 1950 steps = 7.8 V
    assert_eq!(
        gauge_reading(0x3c, 0xf0, false),
        Some(Reading { voltage: 7800, is_charging: false })
    );
    assert_eq!(
        gauge_reading(0x3c, 0xf7, true),
        Some(Reading { voltage: 7800, is_charging: true })
    );
    // 2000 steps = 8.0 V: not yet counted as charging; one step more is
    assert_eq!(gauge_reading(0x3e, 0x80, false), Some(Reading { voltage: 8000, is_charging: false }));
    assert_eq!(gauge_reading(0x3e, 0x88, false), Some(Reading { voltage: 8004, is_charging: true }));
    assert_eq!(gauge_reading(0, 0, false), None);
    assert_eq!(gauge_reading(0, 7, false), None);
    assert_eq!(gauge_reading(0, 8, false), Some(Reading { voltage: 4, is_charging: false }));
    // 4999 steps = 19.996 V is the last reading, 5000 steps = 20 V is none
    assert_eq!(gauge_reading(0x9c, 0x38, false), Some(Reading { voltage: 19996, is_charging: true }));
    assert_eq!(gauge_reading(0x9c, 0x40, false), None);
    assert_eq!(gauge_reading(0xff, 0xff, false), None);
}

#[test]
fn the_mains_status_is_a_small_number() {
    assert_eq!(mains_status(b"0\n"), Some(0));
    assert_eq!(mains_status(b" 1 "), Some(1));
    assert_eq!(mains_status(b"255"), Some(255));
    assert_eq!(mains_status(b"256"), None);
    assert_eq!(mains_status(b"on"), None);
    assert_eq!(mains_status(b""), None);
    assert!(is_on_battery(&vec![mains_status(b"x"), mains_status(b"0\n")]));
}
