//! The battery monitor: what is read from the battery decides when the
//! machine is warned and when it is shut down. The monitor reads nothing
//! itself: its caller hands it each reading and does what it is told.

use vstd::prelude::*;
use vstd::string::StringSliceAdditionalSpecFns;
use crate::text::{find, find_word, number_value, parse_number, strip, stripped, Strip, TextRange};

verus! {

/// The voltage of a full battery, in millivolts.
pub const FULL_MILLIVOLTS: u32 = 8400;

/// How many warnings precede a shutdown.
pub const WARNINGS: u32 = 6;

/// The seconds between two warnings.
pub const WARNING_STEP_SECS: u32 = 5;

/// How the monitor is set up.
#[derive(Clone, Copy, Debug, PartialEq, Eq, Structural)]
pub struct UpsConfig {
    pub enabled: bool,
    pub i2c_bus: u8,
    pub i2c_address: u8,
    /// The voltage below which the machine is shut down, in millivolts.
    pub voltage_threshold: u32,
    pub check_interval_secs: u64,
}

impl Default for UpsConfig {
    /// Monitoring is off until a configuration switches it on.
    fn default() -> (config: UpsConfig)
        ensures
            config == (UpsConfig {
                enabled: false,
                i2c_bus: 1,
                i2c_address: 0x36,
                voltage_threshold: 3200,
                check_interval_secs: 5,
            }),
    {
        UpsConfig {
            enabled: false,
            i2c_bus: 1,
            i2c_address: 0x36,
            voltage_threshold: 3200,
            check_interval_secs: 5,
        }
    }
}

/// What is known of the battery.
#[derive(Clone, Copy, Debug, PartialEq, Eq, Structural)]
pub struct BatteryStatus {
    /// In millivolts.
    pub voltage: u32,
    /// From 0 to 100.
    pub percentage: u32,
    pub is_charging: bool,
    /// Whether the battery was read at all.
    pub is_available: bool,
}

impl Default for BatteryStatus {
    fn default() -> (status: BatteryStatus)
        ensures
            status == (BatteryStatus {
                voltage: 0,
                percentage: 0,
                is_charging: false,
                is_available: false,
            }),
    {
        BatteryStatus { voltage: 0, percentage: 0, is_charging: false, is_available: false }
    }
}

/// One reading of the battery.
#[derive(Clone, Copy, Debug, PartialEq, Eq, Structural)]
pub struct Reading {
    /// In millivolts.
    pub voltage: u32,
    pub is_charging: bool,
}

/// The lower-case form of an ASCII letter; every other byte is its own.
pub open spec fn lower(b: u8) -> u8 {
    if 65 <= b <= 90 {
        (b + 32) as u8
    } else {
        b
    }
}

/// The text with its ASCII letters in lower case.
pub open spec fn lowered(s: Seq<u8>) -> Seq<u8> {
    Seq::new(s.len(), |i: int| lower(s[i]))
}

/// Whether a status text of the power supply speaks of charging: it holds
/// the word `charging`, in capitals or not. (So does `discharging`.)
pub open spec fn speaks_of_charging(s: Seq<u8>) -> bool {
    find(lowered(s), "charging".spec_bytes(), 0, s.len() as int) < s.len()
}

/// Whether a status text of the power supply speaks of charging.
pub fn charging_reported(status: &[u8]) -> (r: bool)
    ensures
        r == speaks_of_charging(status@),
{
    let mut low: Vec<u8> = Vec::new();
    let mut i: usize = 0;
    while i < status.len()
        invariant
            i <= status@.len(),
            low@.len() == i,
            forall|j: int| 0 <= j < i ==> low@[j] == lower(status@[j]),
        decreases status@.len() - i,
    {
        let b: u8 = status[i];
        if 65 <= b && b <= 90 {
            low.push(b + 32);
        } else {
            low.push(b);
        }
        i = i + 1;
    }
    assert(low@ =~= lowered(status@));
    let n: usize = low.len();
    find_word(low.as_slice(), "charging", 0, n) < n
}

/// The millivolts that a number of microvolts comes to, to the nearest, and
/// no more than a reading can hold.
pub open spec fn millivolts_of(microvolts: int) -> int {
    if (microvolts + 500) / 1000 > u32::MAX {
        u32::MAX as int
    } else {
        (microvolts + 500) / 1000
    }
}

/// The reading that a text with a number of microvolts gives, the blanks
/// around the number left aside; none where the text holds no such number.
pub open spec fn microvolt_reading_of(s: Seq<u8>, is_charging: bool) -> Option<Reading> {
    let (a, b) = stripped(s, Strip::Blanks, 0, s.len() as int);
    match number_value(s.subrange(a, b), 10, u64::MAX as int) {
        Some(microvolts) => Some(
            Reading { voltage: millivolts_of(microvolts) as u32, is_charging },
        ),
        None => None,
    }
}

/// The reading that a text with a number of microvolts gives.
pub fn microvolt_reading(text: &[u8], is_charging: bool) -> (r: Option<Reading>)
    ensures
        r == microvolt_reading_of(text@, is_charging),
{
    let range: TextRange = strip(text, Strip::Blanks, 0, text.len());
    match parse_number(text, range.start, range.end, false, u64::MAX) {
        Some(microvolts) => {
            let mv: u64 = if microvolts > u64::MAX - 500 {
                u64::MAX / 1000
            } else {
                (microvolts + 500) / 1000
            };
            let voltage: u32 = if mv > u32::MAX as u64 {
                u32::MAX
            } else {
                mv as u32
            };
            Some(Reading { voltage, is_charging })
        },
        None => None,
    }
}

/// The reading that the two bytes of the bus voltage register of the gauge
/// give, the high byte first. The register counts steps of 4 millivolts
/// above its three lowest bits. A voltage of nothing, or of 20 volts and
/// more, is no reading. Above 8 volts the battery counts as charging, whatever
/// was reported.
pub open spec fn gauge_reading_of(high: u8, low: u8, is_charging: bool) -> Option<Reading> {
    let millivolts = ((high * 256 + low) / 8) * 4;
    if 0 < millivolts < 20000 {
        Some(Reading { voltage: millivolts as u32, is_charging: is_charging || millivolts > 8000 })
    } else {
        None
    }
}

/// The reading that the two bytes of the bus voltage register give.
pub fn gauge_reading(high: u8, low: u8, is_charging: bool) -> (r: Option<Reading>)
    ensures
        r == gauge_reading_of(high, low, is_charging),
{
    let raw: u32 = high as u32 * 256 + low as u32;
    let millivolts: u32 = (raw / 8) * 4;
    if 0 < millivolts && millivolts < 20000 {
        Some(Reading { voltage: millivolts, is_charging: is_charging || millivolts > 8000 })
    } else {
        None
    }
}

/// The charge that a voltage stands for, in percent: 0 at `min` millivolts
/// and below, 100 at the full voltage and above, and in proportion between
/// them, rounded down. Where `min` is not below the full voltage there is
/// nothing between: the battery counts as full above `min`, as empty
/// otherwise.
pub open spec fn percentage_of(voltage: int, min: int) -> int {
    if min >= 8400 {
        if voltage > min {
            100
        } else {
            0
        }
    } else if voltage <= min {
        0
    } else if voltage >= 8400 {
        100
    } else {
        ((voltage - min) * 100) / (8400 - min)
    }
}

/// The percentage lies between 0 and 100.
pub proof fn lemma_percentage_bounds(voltage: int, min: int)
    ensures
        0 <= percentage_of(voltage, min) <= 100,
{
    if min < 8400 && min < voltage < 8400 {
        assert(0 <= ((voltage - min) * 100) / (8400 - min) <= 100) by (nonlinear_arith)
            requires
                min < voltage < 8400,
        ;
    }
}

/// The charge that a voltage stands for, in percent.
pub fn voltage_to_percentage(voltage: u32, min: u32) -> (percent: u32)
    ensures
        percent == percentage_of(voltage as int, min as int),
        percent <= 100,
{
    proof {
        lemma_percentage_bounds(voltage as int, min as int);
    }
    if min >= FULL_MILLIVOLTS {
        if voltage > min {
            100
        } else {
            0
        }
    } else if voltage <= min {
        0
    } else if voltage >= FULL_MILLIVOLTS {
        100
    } else {
        (((voltage - min) as u64 * 100) / ((FULL_MILLIVOLTS - min) as u64)) as u32
    }
}

/// How the battery is shown.
#[derive(Clone, Copy, Debug, PartialEq, Eq, Structural)]
pub enum BatteryLevel {
    /// The battery is charging, whatever its charge.
    Charging,
    /// Less than a fifth is left.
    Low,
    /// Less than two fifths are left.
    Medium,
    Good,
}

/// How a battery of the given status is shown.
pub open spec fn level_of(status: BatteryStatus) -> BatteryLevel {
    if status.is_charging {
        BatteryLevel::Charging
    } else if status.percentage < 20 {
        BatteryLevel::Low
    } else if status.percentage < 40 {
        BatteryLevel::Medium
    } else {
        BatteryLevel::Good
    }
}

impl BatteryStatus {
    /// How the battery is shown.
    pub fn level(&self) -> (level: BatteryLevel)
        ensures
            level == level_of(*self),
    {
        if self.is_charging {
            BatteryLevel::Charging
        } else if self.percentage < 20 {
            BatteryLevel::Low
        } else if self.percentage < 40 {
            BatteryLevel::Medium
        } else {
            BatteryLevel::Good
        }
    }
}

/// Where the monitor stands.
#[derive(Clone, Copy, Debug, PartialEq, Eq, Structural)]
pub enum MonitorPhase {
    /// Monitoring is switched off.
    Disabled,
    /// The first reading is awaited. It fills in the status and decides
    /// nothing.
    Starting,
    /// Readings are taken at the interval of the configuration.
    Watching,
    /// The battery is low: this many warnings are still to be waited out.
    Warning(u32),
    /// The shutdown has been asked for.
    ShutdownRequested,
}

/// What has happened outside.
#[derive(Clone, Copy, Debug, PartialEq, Eq, Structural)]
pub enum MonitorEvent {
    /// The battery was read, or could not be read.
    Read(Option<Reading>),
    /// The time of one warning has passed.
    WarningElapsed,
}

/// What the caller is to do next.
#[derive(Clone, Copy, Debug, PartialEq, Eq, Structural)]
pub enum MonitorAction {
    /// Read the battery now.
    ReadNow,
    /// Wait this many seconds, then read the battery.
    ReadAfter(u64),
    /// Warn that the machine shuts down in this many seconds, then wait for
    /// the time of one warning.
    Warn(u32),
    /// Shut the machine down.
    Shutdown,
    /// Nothing more.
    Stop,
    /// The event was not awaited: go on with what was to be done before.
    Ignored,
}

/// The state of the monitor.
#[derive(Clone, Copy, Debug, PartialEq, Eq, Structural)]
pub struct UpsMonitor {
    pub config: UpsConfig,
    pub status: BatteryStatus,
    pub phase: MonitorPhase,
}

/// The status after a reading.
pub open spec fn status_after(reading: Reading, config: UpsConfig) -> BatteryStatus {
    BatteryStatus {
        voltage: reading.voltage,
        percentage: percentage_of(reading.voltage as int, config.voltage_threshold as int) as u32,
        is_charging: reading.is_charging,
        is_available: true,
    }
}

/// Whether a reading calls for a shutdown: the voltage is below the
/// threshold and the battery is not charging.
pub open spec fn is_critical(reading: Reading, config: UpsConfig) -> bool {
    reading.voltage < config.voltage_threshold && !reading.is_charging
}

/// The monitor after an event, and what the caller is to do.
///
/// A reading updates the status. While watching, a critical reading starts
/// the warnings, and anything else is followed by the next reading after
/// the interval. Each warning that has passed leads to the next, the last to
/// the shutdown. An event that the phase does not await changes nothing.
pub open spec fn monitor_step(m: UpsMonitor, event: MonitorEvent) -> (UpsMonitor, MonitorAction) {
    match (m.phase, event) {
        (MonitorPhase::Starting, MonitorEvent::Read(reading)) => (
            UpsMonitor {
                status: match reading {
                    Some(r) => status_after(r, m.config),
                    None => m.status,
                },
                phase: MonitorPhase::Watching,
                ..m
            },
            MonitorAction::ReadAfter(m.config.check_interval_secs),
        ),
        (MonitorPhase::Watching, MonitorEvent::Read(Some(r))) => if is_critical(r, m.config) {
            (
                UpsMonitor {
                    status: status_after(r, m.config),
                    phase: MonitorPhase::Warning(6),
                    ..m
                },
                MonitorAction::Warn(30),
            )
        } else {
            (
                UpsMonitor { status: status_after(r, m.config), ..m },
                MonitorAction::ReadAfter(m.config.check_interval_secs),
            )
        },
        (MonitorPhase::Watching, MonitorEvent::Read(None)) => (
            m,
            MonitorAction::ReadAfter(m.config.check_interval_secs),
        ),
        (MonitorPhase::Warning(n), MonitorEvent::WarningElapsed) => if 1 < n <= 6 {
            (
                UpsMonitor { phase: MonitorPhase::Warning((n - 1) as u32), ..m },
                MonitorAction::Warn(((n - 1) * 5) as u32),
            )
        } else {
            (UpsMonitor { phase: MonitorPhase::ShutdownRequested, ..m }, MonitorAction::Shutdown)
        },
        (MonitorPhase::Warning(_), MonitorEvent::Read(_)) => (m, MonitorAction::Ignored),
        (MonitorPhase::Watching, MonitorEvent::WarningElapsed) => (m, MonitorAction::Ignored),
        (MonitorPhase::Starting, MonitorEvent::WarningElapsed) => (m, MonitorAction::Ignored),
        (MonitorPhase::Disabled, _) => (m, MonitorAction::Stop),
        (MonitorPhase::ShutdownRequested, _) => (m, MonitorAction::Stop),
    }
}

/// Once the shutdown has been asked for, no event takes it back.
pub proof fn lemma_shutdown_is_final(m: UpsMonitor, event: MonitorEvent)
    requires
        m.phase == MonitorPhase::ShutdownRequested,
    ensures
        monitor_step(m, event).0 == m,
        monitor_step(m, event).1 == MonitorAction::Stop,
{
}

/// A shutdown is asked for only at the end of the warnings: the step that
/// reaches it starts from the last warning.
pub proof fn lemma_shutdown_follows_warnings(m: UpsMonitor, event: MonitorEvent)
    requires
        m.phase != MonitorPhase::ShutdownRequested,
        monitor_step(m, event).0.phase == MonitorPhase::ShutdownRequested,
    ensures
        m.phase matches MonitorPhase::Warning(_),
        event == MonitorEvent::WarningElapsed,
        monitor_step(m, event).1 == MonitorAction::Shutdown,
{
}

/// The monitor at its start, and what the caller is to do first: read the
/// battery at once, or nothing where monitoring is switched off.
pub fn start_monitoring(config: UpsConfig) -> (r: (UpsMonitor, MonitorAction))
    ensures
        r.0.config == config,
        r.0.status == (BatteryStatus {
            voltage: 0,
            percentage: 0,
            is_charging: false,
            is_available: false,
        }),
        config.enabled ==> r.0.phase == MonitorPhase::Starting && r.1 == MonitorAction::ReadNow,
        !config.enabled ==> r.0.phase == MonitorPhase::Disabled && r.1 == MonitorAction::Stop,
{
    let status = BatteryStatus::default();
    if config.enabled {
        (UpsMonitor { config, status, phase: MonitorPhase::Starting }, MonitorAction::ReadNow)
    } else {
        (UpsMonitor { config, status, phase: MonitorPhase::Disabled }, MonitorAction::Stop)
    }
}

impl UpsMonitor {
    /// The status after a reading.
    fn status_for(&self, reading: Reading) -> (status: BatteryStatus)
        ensures
            status == status_after(reading, self.config),
    {
        BatteryStatus {
            voltage: reading.voltage,
            percentage: voltage_to_percentage(reading.voltage, self.config.voltage_threshold),
            is_charging: reading.is_charging,
            is_available: true,
        }
    }

    /// Takes in an event and says what the caller is to do next.
    pub fn step(&mut self, event: MonitorEvent) -> (action: MonitorAction)
        ensures
            (*final(self), action) == monitor_step(*old(self), event),
    {
        let interval: u64 = self.config.check_interval_secs;
        match self.phase {
            MonitorPhase::Disabled => MonitorAction::Stop,
            MonitorPhase::ShutdownRequested => MonitorAction::Stop,
            MonitorPhase::Starting => match event {
                MonitorEvent::Read(reading) => {
                    if let Some(r) = reading {
                        self.status = self.status_for(r);
                    }
                    self.phase = MonitorPhase::Watching;
                    MonitorAction::ReadAfter(interval)
                },
                MonitorEvent::WarningElapsed => MonitorAction::Ignored,
            },
            MonitorPhase::Watching => match event {
                MonitorEvent::Read(Some(r)) => {
                    self.status = self.status_for(r);
                    if r.voltage < self.config.voltage_threshold && !r.is_charging {
                        self.phase = MonitorPhase::Warning(WARNINGS);
                        MonitorAction::Warn(WARNINGS * WARNING_STEP_SECS)
                    } else {
                        MonitorAction::ReadAfter(interval)
                    }
                },
                MonitorEvent::Read(None) => MonitorAction::ReadAfter(interval),
                MonitorEvent::WarningElapsed => MonitorAction::Ignored,
            },
            MonitorPhase::Warning(n) => match event {
                MonitorEvent::WarningElapsed => {
                    if 1 < n && n <= WARNINGS {
                        self.phase = MonitorPhase::Warning(n - 1);
                        MonitorAction::Warn((n - 1) * WARNING_STEP_SECS)
                    } else {
                        self.phase = MonitorPhase::ShutdownRequested;
                        MonitorAction::Shutdown
                    }
                },
                MonitorEvent::Read(_) => MonitorAction::Ignored,
            },
        }
    }
}

/// What is known of the battery.
pub fn get_battery_status(monitor: &UpsMonitor) -> (status: BatteryStatus)
    ensures
        status == monitor.status,
{
    monitor.status
}

/// Whether the monitor has asked for the shutdown.
pub fn is_shutdown_requested(monitor: &UpsMonitor) -> (requested: bool)
    ensures
        requested == (monitor.phase == MonitorPhase::ShutdownRequested),
{
    match monitor.phase {
        MonitorPhase::ShutdownRequested => true,
        _ => false,
    }
}

/// The number that a status text of the mains supply holds, the blanks
/// around it left aside; none where the text holds no number up to 255.
pub open spec fn mains_status_of(s: Seq<u8>) -> Option<u8> {
    let (a, b) = stripped(s, Strip::Blanks, 0, s.len() as int);
    match number_value(s.subrange(a, b), 10, 255) {
        Some(v) => Some(v as u8),
        None => None,
    }
}

/// The number that a status text of the mains supply holds.
pub fn mains_status(text: &[u8]) -> (r: Option<u8>)
    ensures
        r == mains_status_of(text@),
{
    let range: TextRange = strip(text, Strip::Blanks, 0, text.len());
    match parse_number(text, range.start, range.end, false, 255) {
        Some(v) => Some(v as u8),
        None => None,
    }
}

/// What a list of readings of the mains supply says: the first source that
/// could be read decides, and it says "on battery" with the number 0. With
/// no source read the machine counts as on mains.
pub open spec fn on_battery(online: Seq<Option<u8>>) -> bool
    decreases online.len(),
{
    if online.len() == 0 {
        false
    } else {
        match online[0] {
            Some(value) => value == 0,
            None => on_battery(online.drop_first()),
        }
    }
}

/// Whether the machine runs on its battery. `online` holds, for each source
/// of the mains status in the order in which they are asked, the number that
/// was read there, or `None` where nothing could be read.
pub fn is_on_battery(online: &Vec<Option<u8>>) -> (r: bool)
    ensures
        r == on_battery(online@),
{
    let mut i: usize = 0;
    assert(online@.skip(0) =~= online@);
    while i < online.len()
        invariant
            i <= online@.len(),
            on_battery(online@) == on_battery(online@.skip(i as int)),
        decreases online@.len() - i,
    {
        let ghost rest = online@.skip(i as int);
        assert(rest[0] == online@[i as int]);
        assert(rest.drop_first() =~= online@.skip(i + 1));
        match online[i] {
            Some(value) => {
                return value == 0;
            },
            None => {},
        }
        i = i + 1;
    }
    assert(online@.skip(i as int).len() == 0);
    false
}

} // verus!
