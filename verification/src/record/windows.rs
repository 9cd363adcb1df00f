//! What the Windows recorder's low-level hooks do with each message: the
//! keyboard hook's key (already mapped to an evdev code) and the mouse
//! hook's moves, buttons and wheel turns, fed to the builder.

use super::builder::{input_step, key_step, move_abs_step, Builder, BuilderState};
use crate::format::{EventType, BTN_EXTRA, BTN_LEFT, BTN_MIDDLE, BTN_RIGHT, BTN_SIDE};
use vstd::prelude::*;

verus! {

pub const WM_MOUSEMOVE: u32 = 0x0200;
pub const WM_LBUTTONDOWN: u32 = 0x0201;
pub const WM_LBUTTONUP: u32 = 0x0202;
pub const WM_RBUTTONDOWN: u32 = 0x0204;
pub const WM_RBUTTONUP: u32 = 0x0205;
pub const WM_MBUTTONDOWN: u32 = 0x0207;
pub const WM_MBUTTONUP: u32 = 0x0208;
pub const WM_MOUSEWHEEL: u32 = 0x020A;
pub const WM_XBUTTONDOWN: u32 = 0x020B;
pub const WM_XBUTTONUP: u32 = 0x020C;
pub const WM_MOUSEHWHEEL: u32 = 0x020E;

/// `KBDLLHOOKSTRUCT` flags: an extended key, and a key release.
pub const LLKHF_EXTENDED: u32 = 0x01;
pub const LLKHF_UP: u32 = 0x80;

/// The signed high word of a `mouseData` field: the wheel delta, or the
/// X button number.
pub open spec fn high_word(data: u32) -> int {
    let h = data / 65536;
    if h >= 32768 {
        h - 65536
    } else {
        h as int
    }
}

/// What a mouse message does to the builder.
pub open spec fn mouse_step(b: BuilderState, now: u64, msg: u32, x: i32, y: i32, data: u32) -> BuilderState {
    let hi = high_word(data);
    if msg == WM_MOUSEMOVE {
        move_abs_step(b, now, x, y)
    } else if msg == WM_LBUTTONDOWN {
        input_step(b, now, EventType::ButtonPress, BTN_LEFT, 0, 0)
    } else if msg == WM_LBUTTONUP {
        input_step(b, now, EventType::ButtonRelease, BTN_LEFT, 0, 0)
    } else if msg == WM_RBUTTONDOWN {
        input_step(b, now, EventType::ButtonPress, BTN_RIGHT, 0, 0)
    } else if msg == WM_RBUTTONUP {
        input_step(b, now, EventType::ButtonRelease, BTN_RIGHT, 0, 0)
    } else if msg == WM_MBUTTONDOWN {
        input_step(b, now, EventType::ButtonPress, BTN_MIDDLE, 0, 0)
    } else if msg == WM_MBUTTONUP {
        input_step(b, now, EventType::ButtonRelease, BTN_MIDDLE, 0, 0)
    } else if msg == WM_XBUTTONDOWN || msg == WM_XBUTTONUP {
        input_step(
            b,
            now,
            if msg == WM_XBUTTONDOWN {
                EventType::ButtonPress
            } else {
                EventType::ButtonRelease
            },
            if hi == 1 {
                BTN_SIDE
            } else {
                BTN_EXTRA
            },
            0,
            0,
        )
    } else if msg == WM_MOUSEWHEEL {
        input_step(b, now, EventType::Scroll, 0, 0, (-hi) as i32)
    } else if msg == WM_MOUSEHWHEEL {
        input_step(b, now, EventType::Scroll, 0, hi as i32, 0)
    } else {
        b
    }
}

fn high_word_of(data: u32) -> (r: i32)
    ensures
        r == high_word(data),
{
    let h = data / 65536;
    if h >= 32768 {
        h as i32 - 65536
    } else {
        h as i32
    }
}

/// The mouse hook: a message `msg` with the pointer at `x, y` and the
/// message's `mouseData`.
pub fn mouse_message(b: &mut Builder, now_us: u64, msg: u32, x: i32, y: i32, data: u32)
    ensures
        final(b)@ == mouse_step(old(b)@, now_us, msg, x, y, data),
{
    let hi = high_word_of(data);
    if msg == WM_MOUSEMOVE {
        b.move_abs(now_us, x, y);
    } else if msg == WM_LBUTTONDOWN {
        b.button(now_us, BTN_LEFT, true);
    } else if msg == WM_LBUTTONUP {
        b.button(now_us, BTN_LEFT, false);
    } else if msg == WM_RBUTTONDOWN {
        b.button(now_us, BTN_RIGHT, true);
    } else if msg == WM_RBUTTONUP {
        b.button(now_us, BTN_RIGHT, false);
    } else if msg == WM_MBUTTONDOWN {
        b.button(now_us, BTN_MIDDLE, true);
    } else if msg == WM_MBUTTONUP {
        b.button(now_us, BTN_MIDDLE, false);
    } else if msg == WM_XBUTTONDOWN || msg == WM_XBUTTONUP {
        let code = if hi == 1 {
            BTN_SIDE
        } else {
            BTN_EXTRA
        };
        b.button(now_us, code, msg == WM_XBUTTONDOWN);
    } else if msg == WM_MOUSEWHEEL {
        b.scroll(now_us, 0, -hi);
    } else if msg == WM_MOUSEHWHEEL {
        b.scroll(now_us, hi, 0);
    }
}

/// What the keyboard hook keeps: the builder, whether the stop key came,
/// and how many keys had no evdev code.
pub struct HookState {
    pub b: Builder,
    pub stopped: bool,
    pub unmapped: u64,
}

/// The keyboard hook: a key whose evdev code is `mapped` (none when the key
/// map has no entry for it), released when `flags` has `LLKHF_UP`.  True
/// when it was the stop key.
pub fn key_message(st: &mut HookState, now_us: u64, flags: u32, mapped: Option<u16>) -> (stop: bool)
    requires
        old(st).unmapped < u64::MAX,
    ensures
        ({
            let up = flags & LLKHF_UP != 0;
            match mapped {
                Some(code) => {
                    let (b2, s) = key_step(old(st).b@, now_us, code, !up);
                    &&& final(st).b@ == b2
                    &&& stop == s
                    &&& final(st).stopped == (old(st).stopped || s)
                    &&& final(st).unmapped == old(st).unmapped
                },
                None => {
                    &&& final(st).b@ == old(st).b@
                    &&& !stop
                    &&& final(st).stopped == old(st).stopped
                    &&& final(st).unmapped == old(st).unmapped + 1
                },
            }
        }),
{
    let up = flags & LLKHF_UP != 0;
    match mapped {
        Some(code) => {
            let s = st.b.key(now_us, code, !up);
            if s {
                st.stopped = true;
            }
            s
        },
        None => {
            st.unmapped = st.unmapped + 1;
            false
        },
    }
}

} // verus!
