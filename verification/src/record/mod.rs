//! Input recording: the platform-independent parts.  Each platform's
//! recorder feeds timestamped raw input into a [`Builder`], which turns it
//! into macro events.

pub mod basic;
pub mod builder;
pub mod evdev;
pub mod macos;
pub mod merge;
pub mod pod;
pub mod portal;
pub mod touchpad;
pub mod windows;
pub mod x11;

pub use builder::Builder;

use vstd::prelude::*;

verus! {

/// How a recording is made.
pub struct Options {
    /// Key that ends the recording (not recorded itself).
    pub stop_key: Option<u16>,
    /// Screen size to store in the header; `None` = ask the backend.
    pub screen: Option<(u32, u32)>,
    /// Coalesce motion into at most one event per this interval.
    pub min_move_interval_us: u32,
    /// Also stop on SIGINT/SIGTERM (CLI); a GUI asks the recorder to stop.
    pub handle_signals: bool,
    /// On Wayland, re-run through `pkexec` when /dev/input is not readable.
    pub allow_elevate: bool,
    /// Test hook: read raw evdev events (helper line format) from this file
    /// instead of /dev/input.
    pub raw_from: Option<String>,
}

impl Default for Options {
    fn default() -> (o: Self)
        ensures
            o.stop_key == Some(88u16),
            o.screen is None,
            o.min_move_interval_us == 10_000,
            !o.handle_signals,
            o.allow_elevate,
            o.raw_from is None,
    {
        Options {
            stop_key: Some(88),  // KEY_F12
            screen: None,
            min_move_interval_us: 10_000,
            handle_signals: false,
            allow_elevate: true,
            raw_from: None,
        }
    }
}

} // verus!
