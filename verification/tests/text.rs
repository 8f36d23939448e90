use pixelsort::config::{parse_ups_config, ParsedUpsConfig};
use pixelsort::power::UpsConfig;
use pixelsort::system::{UpdateError, UpdateManager};
use pixelsort::text::{byte_is_blank, byte_is_stripped, Strip, TextRange};
use pixelsort::usb::usb_mount_points;

fn parsed(text: &str) -> ParsedUpsConfig {
    parse_ups_config(text.as_bytes())
}

fn threshold_text<'a>(text: &'a str) -> Option<&'a str> {
    parsed(text).voltage_threshold_text.map(|r| &text[r.start..r.end])
}

#[test]
fn an_empty_file_gives_the_defaults() {
    let p = parsed("");
    assert_eq!(p.config, UpsConfig::default());
    assert_eq!(p.voltage_threshold_text, None);
    assert_eq!(parsed("\n\n   \n# nothing\n[ups]\n").config, UpsConfig::default());
}

#[test]
fn a_full_file_is_read() {
    let text = "# UPS settings\n[ups]\nenabled = true\ni2c_bus = 3\ni2c_address = 0x42\nvoltage_threshold = 6.4\ncheck_interval_secs = 15\n";
    let p = parsed(text);
    assert_eq!(
        p.config,
        UpsConfig {
            enabled: true,
            i2c_bus: 3,
            i2c_address: 0x42,
            voltage_threshold: 3200,
            check_interval_secs: 15,
        }
    );
    assert_eq!(threshold_text(text), Some("6.4"));
}

#[test]
fn blanks_and_quotes_around_keys_and_values_do_not_count() {
    let text = "  enabled=\"true\"  \r\n\ti2c_bus\t=\t'7'\r\n voltage_threshold =  \"'7.25'\" \n";
    let p = parsed(text);
    assert!(p.config.enabled);
    assert_eq!(p.config.i2c_bus, 7);
    assert_eq!(threshold_text(text), Some("7.25"));
}

#[test]
fn enabled_is_true_for_the_word_true_only() {
    assert!(parsed("enabled = true").config.enabled);
    assert!(!parsed("enabled = True").config.enabled);
    assert!(!parsed("enabled = 1").config.enabled);
    assert!(!parsed("enabled = true\nenabled = yes").config.enabled);
    assert!(!parsed("enabled = t rue").config.enabled);
    assert!(!parsed("enabled true").config.enabled);
    assert!(!parsed("#enabled = true").config.enabled);
    assert!(!parsed("[enabled = true").config.enabled);
    assert!(!parsed("Enabled = true").config.enabled);
}

#[test]
fn a_later_line_overrides_an_earlier_one() {
    let p = parsed("i2c_bus = 2\ni2c_bus = 5\ncheck_interval_secs=1\ncheck_interval_secs=2");
    assert_eq!(p.config.i2c_bus, 5);
    assert_eq!(p.config.check_interval_secs, 2);
}

#[test]
fn numbers_that_cannot_be_read_give_the_fallback() {
    assert_eq!(parsed("i2c_bus = 9").config.i2c_bus, 9);
    assert_eq!(parsed("i2c_bus = +9").config.i2c_bus, 9);
    assert_eq!(parsed("i2c_bus = 007").config.i2c_bus, 7);
    assert_eq!(parsed("i2c_bus = 255").config.i2c_bus, 255);
    for bad in ["256", "-1", "", "+", "1 2", "0x1", "1.0", "९", "99999999999999999999999"] {
        assert_eq!(parsed(&format!("i2c_bus = 4\ni2c_bus = {}", bad)).config.i2c_bus, 1);
        assert_eq!(
            parsed(&format!("check_interval_secs = {}", bad)).config.check_interval_secs,
            if bad == "256" { 256 } else { 10 }
        );
    }
    assert_eq!(
        parsed("check_interval_secs = 18446744073709551615").config.check_interval_secs,
        u64::MAX
    );
    assert_eq!(parsed("check_interval_secs = 18446744073709551616").config.check_interval_secs, 10);
}

#[test]
fn the_address_is_read_in_hexadecimal_or_decimal() {
    assert_eq!(parsed("i2c_address = 0x36").config.i2c_address, 0x36);
    assert_eq!(parsed("i2c_address = 0X4a").config.i2c_address, 0x4a);
    assert_eq!(parsed("i2c_address = 0xFF").config.i2c_address, 0xff);
    assert_eq!(parsed("i2c_address = 0x+f").config.i2c_address, 0x0f);
    assert_eq!(parsed("i2c_address = 66").config.i2c_address, 66);
    assert_eq!(parsed("i2c_address = 0").config.i2c_address, 0);
    for bad in ["0x100", "0x", "0xg1", "x36", "4a", "300", "0 x36"] {
        assert_eq!(
            parsed(&format!("i2c_address = 1\ni2c_address = {}", bad)).config.i2c_address,
            0x36
        );
    }
}

#[test]
fn the_key_ends_at_the_first_equals_sign() {
    let text = "voltage_threshold = a=b\n";
    assert_eq!(threshold_text(text), Some("a=b"));
    assert_eq!(parsed("= true\nenabled == true").config.enabled, false);
}

#[test]
fn the_threshold_text_is_the_last_one_given() {
    let text = "voltage_threshold = 6.0\nvoltage_threshold = \n";
    assert_eq!(threshold_text(text), Some(""));
    let text = "voltage_threshold = 6.0\nvoltage_threshold = 7.5";
    assert_eq!(threshold_text(text), Some("7.5"));
}

#[test]
fn blanks_and_quotes_are_told_apart() {
    for b in [b' ', b'\t', b'\n', b'\r', 11u8, 12u8] {
        assert!(byte_is_blank(b));
        assert!(byte_is_stripped(Strip::Blanks, b));
        assert!(!byte_is_stripped(Strip::Quotes, b));
    }
    for b in [b'a', b'0', 0u8, 8u8, 14u8, 31u8, 33u8, 160u8, 255u8] {
        assert!(!byte_is_blank(b));
    }
    assert!(byte_is_stripped(Strip::Quotes, b'"'));
    assert!(byte_is_stripped(Strip::Quotes, b'\''));
    assert!(!byte_is_stripped(Strip::Quotes, b'`'));
}

fn mounts(text: &str) -> Vec<&str> {
    usb_mount_points(text.as_bytes()).iter().map(|r| &text[r.start..r.end]).collect()
}

#[test]
fn usb_drives_are_found_in_the_mount_table() {
    let table = "/dev/root on / type ext4 (rw,noatime)\n\
                 /dev/sda1 on /media/pi/STICK type vfat (rw,nosuid)\n\
                 tmpfs on /run type tmpfs (rw)\n\
                 /dev/sdb1 on /media/pixelsort/My Disk type exfat (rw)\n\
                 /dev/sdc1 on /mnt/usb type ntfs (rw)\n\
                 /dev/sdd1 on /media/pi/EXT type ext4 (rw)\n\
                 /dev/sde1 on /media/pi/NT type ntfs (ro)";
    assert_eq!(mounts(table), vec!["/media/pi/STICK", "/media/pixelsort/My Disk", "/media/pi/NT"]);
    assert_eq!(mounts(""), Vec::<&str>::new());
    assert_eq!(mounts("\n\n"), Vec::<&str>::new());
}

#[test]
fn a_mount_line_needs_both_marks_in_order() {
    assert_eq!(mounts("/dev/sda1 /media/pi/X vfat"), Vec::<&str>::new());
    assert_eq!(mounts("/dev/sda1 on /media/pi/X vfat"), Vec::<&str>::new());
    assert_eq!(mounts("vfat type /media/x on /dev/sda1"), Vec::<&str>::new());
    assert_eq!(mounts("a on type /media/ vfat"), Vec::<&str>::new());
    assert_eq!(mounts("a on  type /media/ vfat"), vec![""]);
    assert_eq!(
        usb_mount_points(b"/dev/sda1 on /media/a type vfat"),
        vec![TextRange { start: 13, end: 21 }]
    );
}

#[test]
fn the_check_output_tells_of_an_update() {
    let mut manager = UpdateManager::new("/srv/app".to_string());
    assert_eq!(manager.record_output(b"From github\nabc1234\ndef5678\n"), Ok(true));
    assert!(manager.update_available);
    assert_eq!(manager.record_output(b"abc1234\n  abc1234 \r\n"), Ok(false));
    assert!(!manager.update_available);
    assert_eq!(manager.record_output(b"abc1234\nabc1234"), Ok(false));
    assert_eq!(manager.record_output(b"abc1234\nabc1234\n\n"), Ok(true));
    assert_eq!(manager.record_output(b"\n\n"), Ok(false));
}

#[test]
fn a_check_output_with_fewer_than_two_lines_is_an_error() {
    let mut manager = UpdateManager::new("/srv/app".to_string());
    manager.record_output(b"a\nb\n").unwrap();
    assert!(manager.update_available);
    assert_eq!(manager.record_output(b""), Err(UpdateError::UnexpectedOutput));
    assert_eq!(manager.record_output(b"abc1234"), Err(UpdateError::UnexpectedOutput));
    assert_eq!(manager.record_output(b"abc1234\n"), Err(UpdateError::UnexpectedOutput));
    assert!(manager.update_available);
}
