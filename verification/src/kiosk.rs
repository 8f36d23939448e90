//! The kiosk: which screen a frame shows. The splash screen, the sleep after
//! idle time, the wake-up, the hidden menu and the timing of the update
//! check are decided here, from the time and from what the user did. The
//! caller draws the screen and does the outside work that it is told to do.
//!
//! Times are milliseconds on a clock that does not run backwards.

use vstd::prelude::*;

verus! {

/// How long the splash screen is shown.
pub const SPLASH_MS: u64 = 2000;

/// How many taps open the hidden menu.
pub const MENU_TAPS: u32 = 5;

/// The pause after which the count of taps starts anew: four seconds.
pub const TAP_PAUSE_MS: u64 = 4000;

/// How long after the start the update check is made.
pub const UPDATE_CHECK_DELAY_MS: u64 = 30000;

/// The idle time after which the kiosk sleeps: five minutes.
pub const SLEEP_AFTER_MS: u64 = 300000;

/// How long the wake-up is shown.
pub const WAKE_MS: u64 = 1000;

/// The time between two looks for a USB drive.
pub const USB_CHECK_EVERY_MS: u64 = 2000;

/// The time after which a message is taken down: four seconds.
pub const MESSAGE_MS: u64 = 4000;

/// The time between two frames of the camera preview.
pub const PREVIEW_EVERY_MS: u64 = 33;

/// The time that has passed since `since`; none where the clock shows less.
pub open spec fn elapsed(now: u64, since: u64) -> int {
    if now >= since {
        now - since
    } else {
        0
    }
}

/// What the kiosk remembers from frame to frame.
#[derive(Clone, Copy, Debug, PartialEq, Eq, Structural)]
pub struct KioskState {
    pub show_splash: bool,
    pub splash_start_time: Option<u64>,
    pub exit_tap_count: u32,
    pub exit_tap_last_time: Option<u64>,
    pub is_sleeping: bool,
    pub is_waking: bool,
    pub wake_start_time: Option<u64>,
    pub last_interaction_time: u64,
    pub update_check_time: Option<u64>,
    pub startup_check_done: bool,
    pub show_developer_menu: bool,
    pub prev_usb_present: bool,
    pub last_usb_check: Option<u64>,
    pub show_usb_export_dialog: bool,
}

/// What happened since the last frame.
#[derive(Clone, Copy, Debug, PartialEq, Eq, Structural)]
pub struct FrameInput {
    pub now: u64,
    /// Whether the battery monitor has asked for the shutdown.
    pub shutdown_requested: bool,
    pub escape_pressed: bool,
    /// Whether the hidden corner was tapped.
    pub corner_tapped: bool,
    /// Whether the user touched, moved or typed anything.
    pub has_interaction: bool,
}

/// What a frame shows.
#[derive(Clone, Copy, Debug, PartialEq, Eq, Structural)]
pub enum Screen {
    /// Nothing: the window is to be closed.
    Close,
    Splash,
    Sleep,
    Waking,
    /// The application itself.
    Main,
}

/// What the caller is to do in a frame.
#[derive(Clone, Copy, Debug, PartialEq, Eq, Structural)]
pub struct FrameAction {
    pub screen: Screen,
    /// Whether the update check is to be made now.
    pub check_for_updates: bool,
}

/// The state after the hidden corner was tapped at `now`: a tap after a
/// pause starts a new count, and the fifth tap of a count opens the menu.
pub open spec fn after_corner_tap(s: KioskState, now: u64) -> KioskState {
    let count: int = match s.exit_tap_last_time {
        Some(last) if elapsed(now, last) >= 4000 => 0,
        _ => s.exit_tap_count as int,
    };
    if count >= 4 {
        KioskState {
            exit_tap_count: 0,
            exit_tap_last_time: Some(now),
            show_developer_menu: true,
            ..s
        }
    } else {
        KioskState { exit_tap_count: (count + 1) as u32, exit_tap_last_time: Some(now), ..s }
    }
}

/// The state after the keys and taps of a frame were taken in: the escape
/// key opens or shuts the menu, then the tap counts.
pub open spec fn after_menu_input(s: KioskState, input: FrameInput) -> KioskState {
    let toggled = if input.escape_pressed {
        KioskState { show_developer_menu: !s.show_developer_menu, ..s }
    } else {
        s
    };
    if input.corner_tapped {
        after_corner_tap(toggled, input.now)
    } else {
        toggled
    }
}

/// Whether the splash screen still stands at `now`.
pub open spec fn splash_stands(s: KioskState, now: u64) -> bool {
    s.show_splash && match s.splash_start_time {
        Some(start) => elapsed(now, start) <= 2000,
        None => false,
    }
}

/// The state after the timing of the update check was looked at, and
/// whether the check is due: the first frame behind the splash screen starts
/// the delay, and the first frame after the delay makes the check, once.
pub open spec fn after_update_timing(s: KioskState, now: u64) -> (KioskState, bool) {
    if s.startup_check_done {
        (s, false)
    } else {
        match s.update_check_time {
            None => (KioskState { update_check_time: Some(now), ..s }, false),
            Some(start) => if elapsed(now, start) >= 30000 {
                (KioskState { startup_check_done: true, ..s }, true)
            } else {
                (s, false)
            },
        }
    }
}

/// The state after sleeping and waking were looked at: an interaction wakes
/// a sleeping kiosk and starts the idle time anew, the wake-up ends after
/// its time, and a kiosk that has been idle for long enough falls asleep.
pub open spec fn after_sleep_timing(s: KioskState, input: FrameInput) -> KioskState {
    let touched = if input.has_interaction {
        if s.is_sleeping {
            KioskState {
                is_sleeping: false,
                is_waking: true,
                wake_start_time: Some(input.now),
                last_interaction_time: input.now,
                ..s
            }
        } else {
            KioskState { last_interaction_time: input.now, ..s }
        }
    } else {
        s
    };
    let woken = match touched.wake_start_time {
        Some(start) if touched.is_waking && elapsed(input.now, start) >= 1000 => KioskState {
            is_waking: false,
            wake_start_time: None,
            ..touched
        },
        _ => touched,
    };
    if !woken.is_sleeping && elapsed(input.now, woken.last_interaction_time) >= 300000 {
        KioskState { is_sleeping: true, ..woken }
    } else {
        woken
    }
}

/// The state after a frame, and what the frame shows.
///
/// A shutdown request closes the window before anything else. The keys and
/// taps are always taken in. While the splash screen stands nothing else
/// happens. Behind it come the update check, then sleeping and waking; a
/// sleeping kiosk shows the sleep screen, a waking one the wake-up, and any
/// other the application.
pub open spec fn frame_step(s: KioskState, input: FrameInput) -> (KioskState, FrameAction) {
    if input.shutdown_requested {
        (s, FrameAction { screen: Screen::Close, check_for_updates: false })
    } else {
        let tapped = after_menu_input(s, input);
        if splash_stands(tapped, input.now) {
            (tapped, FrameAction { screen: Screen::Splash, check_for_updates: false })
        } else {
            behind_splash(
                KioskState {
                    show_splash: tapped.show_splash && tapped.splash_start_time is None,
                    ..tapped
                },
                input,
            )
        }
    }
}

/// The state after a frame behind the splash screen, and what it shows.
pub open spec fn behind_splash(s: KioskState, input: FrameInput) -> (KioskState, FrameAction) {
    let (timed, check) = after_update_timing(s, input.now);
    let rested = after_sleep_timing(timed, input);
    let screen = if rested.is_sleeping {
        Screen::Sleep
    } else if rested.is_waking {
        Screen::Waking
    } else {
        Screen::Main
    };
    (rested, FrameAction { screen, check_for_updates: check })
}

/// A shutdown request closes the window, whatever else is the case.
pub proof fn lemma_shutdown_closes(s: KioskState, input: FrameInput)
    requires
        input.shutdown_requested,
    ensures
        frame_step(s, input).1.screen == Screen::Close,
        frame_step(s, input).0 == s,
{
}

/// The update check is made at most once: after the frame that asks for
/// it, no frame asks again.
pub proof fn lemma_update_check_once(s: KioskState, input: FrameInput, later: FrameInput)
    requires
        frame_step(s, input).1.check_for_updates,
    ensures
        frame_step(s, input).0.startup_check_done,
        !frame_step(frame_step(s, input).0, later).1.check_for_updates,
{
}

/// An interaction keeps the kiosk awake: a frame with an interaction never
/// shows the sleep screen.
pub proof fn lemma_interaction_wakes(s: KioskState, input: FrameInput)
    requires
        input.has_interaction,
    ensures
        frame_step(s, input).1.screen != Screen::Sleep,
{
}

/// Whether `now` is at least `span` behind `since`.
fn has_elapsed(now: u64, since: u64, span: u64) -> (r: bool)
    ensures
        r == (elapsed(now, since) >= span),
{
    if now >= since {
        now - since >= span
    } else {
        span == 0
    }
}

impl KioskState {
    /// The state at the start, at time `now`: the splash screen stands, and
    /// the user counts as having just interacted.
    pub fn new(now: u64) -> (s: KioskState)
        ensures
            s == (KioskState {
                show_splash: true,
                splash_start_time: Some(now),
                exit_tap_count: 0,
                exit_tap_last_time: None,
                is_sleeping: false,
                is_waking: false,
                wake_start_time: None,
                last_interaction_time: now,
                update_check_time: None,
                startup_check_done: false,
                show_developer_menu: false,
                prev_usb_present: false,
                last_usb_check: None,
                show_usb_export_dialog: false,
            }),
    {
        KioskState {
            show_splash: true,
            splash_start_time: Some(now),
            exit_tap_count: 0,
            exit_tap_last_time: None,
            is_sleeping: false,
            is_waking: false,
            wake_start_time: None,
            last_interaction_time: now,
            update_check_time: None,
            startup_check_done: false,
            show_developer_menu: false,
            prev_usb_present: false,
            last_usb_check: None,
            show_usb_export_dialog: false,
        }
    }

    /// Takes in a tap on the hidden corner.
    fn tap_corner(&mut self, now: u64)
        ensures
            *final(self) == after_corner_tap(*old(self), now),
    {
        let mut count: u32 = self.exit_tap_count;
        if let Some(last) = self.exit_tap_last_time {
            if has_elapsed(now, last, TAP_PAUSE_MS) {
                count = 0;
            }
        }
        self.exit_tap_last_time = Some(now);
        if count >= MENU_TAPS - 1 {
            self.show_developer_menu = true;
            self.exit_tap_count = 0;
        } else {
            self.exit_tap_count = count + 1;
        }
    }

    /// Looks at the timing of the update check.
    fn time_update_check(&mut self, now: u64) -> (due: bool)
        ensures
            (*final(self), due) == after_update_timing(*old(self), now),
    {
        if self.startup_check_done {
            return false;
        }
        match self.update_check_time {
            None => {
                self.update_check_time = Some(now);
                false
            },
            Some(start) => {
                if has_elapsed(now, start, UPDATE_CHECK_DELAY_MS) {
                    self.startup_check_done = true;
                    true
                } else {
                    false
                }
            },
        }
    }

    /// Looks at sleeping and waking.
    fn time_sleep(&mut self, input: &FrameInput)
        ensures
            *final(self) == after_sleep_timing(*old(self), *input),
    {
        if input.has_interaction {
            if self.is_sleeping {
                self.is_sleeping = false;
                self.is_waking = true;
                self.wake_start_time = Some(input.now);
            }
            self.last_interaction_time = input.now;
        }
        if self.is_waking {
            if let Some(start) = self.wake_start_time {
                if has_elapsed(input.now, start, WAKE_MS) {
                    self.is_waking = false;
                    self.wake_start_time = None;
                }
            }
        }
        if !self.is_sleeping && has_elapsed(input.now, self.last_interaction_time, SLEEP_AFTER_MS) {
            self.is_sleeping = true;
        }
    }

    /// Takes in what happened since the last frame, and says what this
    /// frame shows.
    pub fn on_frame(&mut self, input: &FrameInput) -> (action: FrameAction)
        ensures
            (*final(self), action) == frame_step(*old(self), *input),
    {
        if input.shutdown_requested {
            return FrameAction { screen: Screen::Close, check_for_updates: false };
        }
        self.take_menu_input(input);
        if self.show_splash {
            if let Some(start) = self.splash_start_time {
                if has_elapsed(input.now, start, SPLASH_MS + 1) {
                    self.show_splash = false;
                } else {
                    return FrameAction { screen: Screen::Splash, check_for_updates: false };
                }
            }
        }
        self.go_on_behind_splash(input)
    }

    /// Takes in the keys and taps of a frame.
    fn take_menu_input(&mut self, input: &FrameInput)
        ensures
            *final(self) == after_menu_input(*old(self), *input),
    {
        if input.escape_pressed {
            self.show_developer_menu = !self.show_developer_menu;
        }
        if input.corner_tapped {
            self.tap_corner(input.now);
        }
    }

    /// One frame behind the splash screen.
    fn go_on_behind_splash(&mut self, input: &FrameInput) -> (action: FrameAction)
        ensures
            (*final(self), action) == behind_splash(*old(self), *input),
    {
        let check: bool = self.time_update_check(input.now);
        self.time_sleep(input);
        let screen: Screen = if self.is_sleeping {
            Screen::Sleep
        } else if self.is_waking {
            Screen::Waking
        } else {
            Screen::Main
        };
        FrameAction { screen, check_for_updates: check }
    }

    /// Whether it is time to look for a USB drive again.
    pub fn usb_check_due(&self, now: u64) -> (due: bool)
        ensures
            due == match self.last_usb_check {
                None => true,
                Some(last) => elapsed(now, last) >= 2000,
            },
    {
        match self.last_usb_check {
            None => true,
            Some(last) => has_elapsed(now, last, USB_CHECK_EVERY_MS),
        }
    }

    /// Takes in whether a USB drive is present at `now`. A drive that was
    /// not there at the last look opens the export dialog.
    pub fn record_usb(&mut self, now: u64, present: bool)
        ensures
            *final(self) == (KioskState {
                show_usb_export_dialog: old(self).show_usb_export_dialog || (present
                    && !old(self).prev_usb_present),
                prev_usb_present: present,
                last_usb_check: Some(now),
                ..*old(self)
            }),
    {
        if present && !self.prev_usb_present && !self.show_usb_export_dialog {
            self.show_usb_export_dialog = true;
        }
        self.prev_usb_present = present;
        self.last_usb_check = Some(now);
    }
}

/// Whether a message that was put up at `since` is to be taken down.
pub fn message_expired(now: u64, since: u64) -> (r: bool)
    ensures
        r == (elapsed(now, since) >= 4000),
{
    has_elapsed(now, since, MESSAGE_MS)
}

/// Whether the camera preview is due for a new frame: there was none yet, or
/// the last one is old enough.
pub fn preview_due(now: u64, last: Option<u64>) -> (r: bool)
    ensures
        r == match last {
            None => true,
            Some(at) => elapsed(now, at) >= 33,
        },
{
    match last {
        None => true,
        Some(at) => has_elapsed(now, at, PREVIEW_EVERY_MS),
    }
}

} // verus!
