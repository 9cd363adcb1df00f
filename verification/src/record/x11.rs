//! The X11 recorder's decisions: XRecord delivers the core input events the
//! server processes; each is read, stamped on a monotonic clock and fed to
//! a [`Builder`].

use super::builder::{input_step, key_step, move_abs_step, Builder, BuilderState};
use crate::bytes::get32;
use crate::format::{EventType, BTN_EXTRA, BTN_LEFT, BTN_MIDDLE, BTN_RIGHT, BTN_SIDE, SCROLL_NOTCH};
use vstd::prelude::*;
use x11rb::x11_utils::TryParse;

verus! {

pub const KEY_PRESS_EVENT: u8 = 2;
pub const KEY_RELEASE_EVENT: u8 = 3;
pub const BUTTON_PRESS_EVENT: u8 = 4;
pub const BUTTON_RELEASE_EVENT: u8 = 5;
pub const MOTION_NOTIFY_EVENT: u8 = 6;

/// The `u32` at `b[i..i + 4]` read big-endian.
pub open spec fn get32_be(b: Seq<u8>, i: int) -> u32 {
    (b[i + 3] + b[i + 2] * 256 + b[i + 1] * 65536 + b[i] * 16777216) as u32
}

/// `t` is the `u32` at `b[i..i + 4]` in one of the two byte orders (the
/// machine's own, which XRecord data arrives in).
pub open spec fn word_at(b: Seq<u8>, i: int, t: u32) -> bool {
    t == get32(b, i) || t == get32_be(b, i)
}

/// `v` is the `i16` at `b[i..i + 2]` in one of the two byte orders.
pub open spec fn half_at(b: Seq<u8>, i: int, v: i16) -> bool {
    let le = b[i] + b[i + 1] * 256;
    let be = b[i + 1] + b[i] * 256;
    let sv = if v < 0 {
        v + 65536
    } else {
        v as int
    };
    sv == le || sv == be
}

/// `x11rb`'s `KeyPressEvent::try_parse` (also for `KeyReleaseEvent`): a key
/// event takes 32 bytes; its keycode is byte 1 and its time bytes 4..8, in
/// the machine's byte order.
#[verifier::external_body]
fn parse_key(data: &[u8]) -> (r: Option<(u8, u32)>)
    ensures
        r is Some <==> data@.len() >= 32,
        r matches Some((detail, time)) ==> detail == data@[1] && word_at(data@, 4, time),
{
    match x11rb::protocol::xproto::KeyPressEvent::try_parse(data) {
        Ok((ev, _)) => Some((ev.detail, ev.time)),
        Err(_) => None,
    }
}

/// `x11rb`'s `ButtonPressEvent::try_parse` (also for `ButtonReleaseEvent`):
/// 32 bytes; the button is byte 1 and the time bytes 4..8.
#[verifier::external_body]
fn parse_button(data: &[u8]) -> (r: Option<(u8, u32)>)
    ensures
        r is Some <==> data@.len() >= 32,
        r matches Some((detail, time)) ==> detail == data@[1] && word_at(data@, 4, time),
{
    match x11rb::protocol::xproto::ButtonPressEvent::try_parse(data) {
        Ok((ev, _)) => Some((ev.detail, ev.time)),
        Err(_) => None,
    }
}

/// `x11rb`'s `MotionNotifyEvent::try_parse`: 32 bytes; the time is bytes
/// 4..8, the root position bytes 20..22 and 22..24.
#[verifier::external_body]
fn parse_motion(data: &[u8]) -> (r: Option<(u32, i16, i16)>)
    ensures
        r is Some <==> data@.len() >= 32,
        r matches Some((time, x, y)) ==> word_at(data@, 4, time) && half_at(data@, 20, x) && half_at(
            data@,
            22,
            y,
        ),
{
    match x11rb::protocol::xproto::MotionNotifyEvent::try_parse(data) {
        Ok((ev, _)) => Some((ev.time, ev.root_x, ev.root_y)),
        Err(_) => None,
    }
}

/// `x11rb`'s `u32::try_parse`: the first four bytes, in the machine's order.
#[verifier::external_body]
fn parse_word(data: &[u8]) -> (r: Option<u32>)
    ensures
        r is Some <==> data@.len() >= 4,
        r matches Some(t) ==> word_at(data@, 0, t),
{
    match u32::try_parse(data) {
        Ok((v, _)) => Some(v),
        Err(_) => None,
    }
}

/// One item of XRecord data.
#[derive(Clone, Copy, Debug, PartialEq, Eq, Structural)]
pub enum XInput {
    Key { detail: u8, time: u32, pressed: bool },
    Button { detail: u8, time: u32, pressed: bool },
    Motion { time: u32, x: i16, y: i16 },
    /// Anything else, to be skipped.
    Skip,
}

/// `ev` and `n`, the bytes it takes, are how the data `d` reads.
pub open spec fn reads_as(d: Seq<u8>, ev: XInput, n: nat) -> bool {
    let code = d[0] & 0x7f;
    if code == KEY_PRESS_EVENT || code == KEY_RELEASE_EVENT {
        d.len() >= 32 && n == 32 && match ev {
            XInput::Key { detail, time, pressed } => detail == d[1] && word_at(d, 4, time) && pressed
                == (code == KEY_PRESS_EVENT),
            _ => false,
        }
    } else if code == BUTTON_PRESS_EVENT || code == BUTTON_RELEASE_EVENT {
        d.len() >= 32 && n == 32 && match ev {
            XInput::Button { detail, time, pressed } => detail == d[1] && word_at(d, 4, time) && pressed
                == (code == BUTTON_PRESS_EVENT),
            _ => false,
        }
    } else if code == MOTION_NOTIFY_EVENT {
        d.len() >= 32 && n == 32 && match ev {
            XInput::Motion { time, x, y } => word_at(d, 4, time) && half_at(d, 20, x) && half_at(d, 22, y),
            _ => false,
        }
    } else if code == 0 {
        d.len() >= 8 && ev == XInput::Skip && exists|w: u32|
            word_at(d, 4, w) && n == (if w * 4 + 32 < d.len() {
                w * 4 + 32
            } else {
                d.len() as int
            })
    } else {
        ev == XInput::Skip && n == (if 32 < d.len() {
            32
        } else {
            d.len() as int
        })
    }
}

/// Whether the data `d` is too short for what its first byte announces.
pub open spec fn too_short(d: Seq<u8>) -> bool {
    let code = d[0] & 0x7f;
    if code == KEY_PRESS_EVENT || code == KEY_RELEASE_EVENT || code == BUTTON_PRESS_EVENT || code
        == BUTTON_RELEASE_EVENT || code == MOTION_NOTIFY_EVENT {
        d.len() < 32
    } else if code == 0 {
        d.len() < 8
    } else {
        false
    }
}

/// Read one item of XRecord data: what it is and how many bytes it takes.
pub fn parse_item(data: &[u8]) -> (r: Option<(XInput, usize)>)
    requires
        data@.len() > 0,
        data@[0] & 0x7f == 0 ==> data@.len() >= 4,
    ensures
        r is None <==> too_short(data@),
        r matches Some((ev, n)) ==> reads_as(data@, ev, n as nat),
{
    let code = data[0] & 0x7f;
    if code == KEY_PRESS_EVENT || code == KEY_RELEASE_EVENT {
        match parse_key(data) {
            Some((detail, time)) => Some((XInput::Key { detail, time, pressed: code == KEY_PRESS_EVENT }, 32)),
            None => None,
        }
    } else if code == BUTTON_PRESS_EVENT || code == BUTTON_RELEASE_EVENT {
        match parse_button(data) {
            Some((detail, time)) => Some(
                (XInput::Button { detail, time, pressed: code == BUTTON_PRESS_EVENT }, 32),
            ),
            None => None,
        }
    } else if code == MOTION_NOTIFY_EVENT {
        match parse_motion(data) {
            Some((time, x, y)) => Some((XInput::Motion { time, x, y }, 32)),
            None => None,
        }
    } else if code == 0 {
        // a reply: skip by its declared length
        let rest = vstd::slice::slice_subrange(data, 4, data.len());
        match parse_word(rest) {
            Some(w) => {
                assert(word_at(data@, 4, w)) by {
                    assert(rest@[0] == data@[4]);
                    assert(rest@[1] == data@[5]);
                    assert(rest@[2] == data@[6]);
                    assert(rest@[3] == data@[7]);
                }
                let len = w as u64 * 4 + 32;
                let n = if len < data.len() as u64 {
                    len as usize
                } else {
                    data.len()
                };
                Some((XInput::Skip, n))
            },
            None => None,
        }
    } else {
        // other events are 32 bytes
        Some((XInput::Skip, if 32 < data.len() { 32 } else { data.len() }))
    }
}

// ---- the server clock ------------------------------------------------------------

/// Converts X server timestamps (ms, wrapping at 2^32) into a monotonic µs clock.
pub struct ServerClock {
    pub last_ms: Option<u32>,
    pub us: u64,
}

impl Default for ServerClock {
    fn default() -> (c: Self)
        ensures
            c.last_ms is None,
            c.us == 0,
    {
        ServerClock { last_ms: None, us: 0 }
    }
}

/// The microseconds the clock reads after a server time of `ms`: it
/// advances by the milliseconds since the last time, modulo 2^32.
pub open spec fn clock_after(c: ServerClock, ms: u32) -> u64 {
    match c.last_ms {
        Some(last) => (c.us + ((ms - last) % 0x1_0000_0000) * 1000) as u64,
        None => c.us,
    }
}

/// The clock reading after `ms` stays within `u64`.
pub open spec fn clock_fits(c: ServerClock, ms: u32) -> bool {
    match c.last_ms {
        Some(last) => c.us + ((ms - last) % 0x1_0000_0000) * 1000 <= u64::MAX,
        None => true,
    }
}

impl ServerClock {
    /// Whether the clock can take a server time of `ms` without overflow.
    pub fn fits(&self, ms: u32) -> (r: bool)
        ensures
            r == clock_fits(*self, ms),
    {
        match self.last_ms {
            Some(last) => {
                let d = ms.wrapping_sub(last) as u64;
                (self.us as u128) + (d as u128) * 1000 <= u64::MAX as u128
            },
            None => true,
        }
    }

    pub fn at(&mut self, ms: u32) -> (t: u64)
        requires
            clock_fits(*old(self), ms),
        ensures
            t == clock_after(*old(self), ms),
            final(self).us == t,
            final(self).last_ms == Some(ms),
    {
        if let Some(last) = self.last_ms {
            let d = ms.wrapping_sub(last) as u64;
            self.us = self.us + d * 1000;
        }
        self.last_ms = Some(ms);
        self.us
    }
}

// ---- feeding the builder -----------------------------------------------------------

/// What an X button number does: buttons 1-3 and 8-9 are mouse buttons, 4-7
/// are wheel notches (acted on when pressed), others are ignored.
pub open spec fn button_step(b: BuilderState, now: u64, detail: u8, pressed: bool) -> BuilderState {
    let kind = if pressed {
        EventType::ButtonPress
    } else {
        EventType::ButtonRelease
    };
    if detail == 1 {
        input_step(b, now, kind, BTN_LEFT, 0, 0)
    } else if detail == 2 {
        input_step(b, now, kind, BTN_MIDDLE, 0, 0)
    } else if detail == 3 {
        input_step(b, now, kind, BTN_RIGHT, 0, 0)
    } else if detail == 4 && pressed {
        input_step(b, now, EventType::Scroll, 0, 0, -120i32)
    } else if detail == 5 && pressed {
        input_step(b, now, EventType::Scroll, 0, 0, 120)
    } else if detail == 6 && pressed {
        input_step(b, now, EventType::Scroll, 0, -120i32, 0)
    } else if detail == 7 && pressed {
        input_step(b, now, EventType::Scroll, 0, 120, 0)
    } else if detail == 8 {
        input_step(b, now, kind, BTN_SIDE, 0, 0)
    } else if detail == 9 {
        input_step(b, now, kind, BTN_EXTRA, 0, 0)
    } else {
        b
    }
}

pub fn button_event(b: &mut Builder, now_us: u64, detail: u8, pressed: bool)
    ensures
        final(b)@ == button_step(old(b)@, now_us, detail, pressed),
{
    match detail {
        1 => b.button(now_us, BTN_LEFT, pressed),
        2 => b.button(now_us, BTN_MIDDLE, pressed),
        3 => b.button(now_us, BTN_RIGHT, pressed),
        4 if pressed => b.scroll(now_us, 0, -SCROLL_NOTCH),
        5 if pressed => b.scroll(now_us, 0, SCROLL_NOTCH),
        6 if pressed => b.scroll(now_us, -SCROLL_NOTCH, 0),
        7 if pressed => b.scroll(now_us, SCROLL_NOTCH, 0),
        8 => b.button(now_us, BTN_SIDE, pressed),
        9 => b.button(now_us, BTN_EXTRA, pressed),
        _ => {},
    }
}

/// The time an item carries.
pub open spec fn item_time(ev: XInput) -> Option<u32> {
    match ev {
        XInput::Key { time, .. } => Some(time),
        XInput::Button { time, .. } => Some(time),
        XInput::Motion { time, .. } => Some(time),
        XInput::Skip => None,
    }
}

/// What an item does to the builder, stamped `now`, and whether it was the
/// stop key.  X keycodes are evdev codes plus 8.
pub open spec fn item_step(b: BuilderState, now: u64, ev: XInput) -> (BuilderState, bool) {
    match ev {
        XInput::Key { detail, pressed, .. } => if detail >= 8 {
            key_step(b, now, (detail - 8) as u16, pressed)
        } else {
            (b, false)
        },
        XInput::Button { detail, pressed, .. } => (button_step(b, now, detail, pressed), false),
        XInput::Motion { x, y, .. } => (move_abs_step(b, now, x as i32, y as i32), false),
        XInput::Skip => (b, false),
    }
}

/// Feed one item to the builder; true when it was the stop key.
pub fn apply_item(b: &mut Builder, clock: &mut ServerClock, ev: XInput) -> (stop: bool)
    requires
        item_time(ev) matches Some(t) ==> clock_fits(*old(clock), t),
    ensures
        match item_time(ev) {
            Some(t) => {
                &&& final(clock).us == clock_after(*old(clock), t)
                &&& final(clock).last_ms == Some(t)
                &&& (final(b)@, stop) == item_step(old(b)@, clock_after(*old(clock), t), ev)
            },
            None => *final(clock) == *old(clock) && final(b)@ == old(b)@ && !stop,
        },
{
    match ev {
        XInput::Key { detail, time, pressed } => {
            let now_us = clock.at(time);
            if detail >= 8 {
                b.key(now_us, (detail - 8) as u16, pressed)
            } else {
                false
            }
        },
        XInput::Button { detail, time, pressed } => {
            let now_us = clock.at(time);
            button_event(b, now_us, detail, pressed);
            false
        },
        XInput::Motion { time, x, y } => {
            let now_us = clock.at(time);
            b.move_abs(now_us, x as i32, y as i32);
            false
        },
        XInput::Skip => false,
    }
}

/// What X input means to the recorder: X buttons 1, 2, 3, 8 and 9 are the
/// left (`0x110`), middle (`0x112`), right (`0x111`), side (`0x113`) and
/// extra (`0x114`) buttons, each press or release one button event; a
/// press of 4, 5, 6 or 7 is one wheel notch up, down, left or right (a
/// scroll of 120, +y down, +x right), and their releases do nothing; an X
/// keycode is the evdev key code plus 8; pointer motion is an absolute
/// move to where the pointer went.
pub proof fn law_x_input_meaning(b: BuilderState, now: u64, detail: u8, pressed: bool, time: u32, x: i16, y: i16)
    ensures
        ({
            let kind = if pressed {
                EventType::ButtonPress
            } else {
                EventType::ButtonRelease
            };
            let r = button_step(b, now, detail, pressed);
            &&& detail == 1 ==> r == input_step(b, now, kind, 0x110, 0, 0)
            &&& detail == 2 ==> r == input_step(b, now, kind, 0x112, 0, 0)
            &&& detail == 3 ==> r == input_step(b, now, kind, 0x111, 0, 0)
            &&& detail == 8 ==> r == input_step(b, now, kind, 0x113, 0, 0)
            &&& detail == 9 ==> r == input_step(b, now, kind, 0x114, 0, 0)
            &&& detail == 4 ==> r == if pressed {
                input_step(b, now, EventType::Scroll, 0, 0, -120i32)
            } else {
                b
            }
            &&& detail == 5 ==> r == if pressed {
                input_step(b, now, EventType::Scroll, 0, 0, 120)
            } else {
                b
            }
            &&& detail == 6 ==> r == if pressed {
                input_step(b, now, EventType::Scroll, 0, -120i32, 0)
            } else {
                b
            }
            &&& detail == 7 ==> r == if pressed {
                input_step(b, now, EventType::Scroll, 0, 120, 0)
            } else {
                b
            }
            &&& (detail == 0 || detail > 9) ==> r == b
        }),
        detail >= 8 ==> item_step(b, now, XInput::Key { detail, time, pressed }) == key_step(b, now, (detail - 8) as u16, pressed),
        item_step(b, now, XInput::Button { detail, time, pressed }) == (button_step(b, now, detail, pressed), false),
        item_step(b, now, XInput::Motion { x, y, time }) == (move_abs_step(b, now, x as i32, y as i32), false),
{
}

} // verus!
