//! What the macOS recorder's event tap does with each event: moves,
//! buttons, wheel turns, keys and modifier changes, fed to the builder.
//! The tap reads the event's fields; keys arrive already mapped to evdev
//! codes.

use super::builder::{input_step, key_step, move_abs_step, Builder, BuilderState};
use crate::format::{EventType, BTN_EXTRA, BTN_LEFT, BTN_MIDDLE, BTN_RIGHT, BTN_SIDE};
use vstd::prelude::*;

verus! {

pub const LEFT_DOWN: u32 = 1;
pub const LEFT_UP: u32 = 2;
pub const RIGHT_DOWN: u32 = 3;
pub const RIGHT_UP: u32 = 4;
pub const MOUSE_MOVED: u32 = 5;
pub const LEFT_DRAGGED: u32 = 6;
pub const RIGHT_DRAGGED: u32 = 7;
pub const KEY_DOWN: u32 = 10;
pub const KEY_UP: u32 = 11;
pub const FLAGS_CHANGED: u32 = 12;
pub const SCROLL_WHEEL: u32 = 22;
pub const OTHER_DOWN: u32 = 25;
pub const OTHER_UP: u32 = 26;
pub const OTHER_DRAGGED: u32 = 27;
pub const TAP_DISABLED_BY_TIMEOUT: u32 = 0xFFFF_FFFE;
pub const TAP_DISABLED_BY_USER: u32 = 0xFFFF_FFFF;

/// The fields of a tapped event that the recorder reads: the pointer
/// location (whole pixels), the mouse button number, the two scroll line
/// deltas (positive = up and left), the autorepeat flag, and the key's
/// evdev code, if the key map has one.
#[derive(Clone, Copy, Debug, PartialEq, Eq)]
pub struct TapFields {
    pub x: i32,
    pub y: i32,
    pub button: i64,
    pub scroll_dy: i32,
    pub scroll_dx: i32,
    pub autorepeat: bool,
    pub key: Option<u16>,
}

/// What the tap keeps: the builder, the modifiers held down, and how many
/// keys had no evdev code.
pub struct TapState {
    pub b: Builder,
    pub held_modifiers: Vec<u16>,
    pub unmapped: u64,
}

/// A [`TapState`] as plain values.
pub ghost struct TapView {
    pub b: BuilderState,
    pub held: Seq<u16>,
    pub unmapped: int,
}

impl View for TapState {
    type V = TapView;

    open spec fn view(&self) -> TapView {
        TapView { b: self.b@, held: self.held_modifiers@, unmapped: self.unmapped as int }
    }
}

/// What the tap's callback does besides feeding the builder.
#[derive(Clone, Copy, Debug, PartialEq, Eq)]
pub struct TapOutcome {
    /// The system disabled the tap: enable it again.
    pub reenable: bool,
    /// The stop key was pressed.
    pub stop: bool,
}

/// The button of an "other" mouse button number.
pub open spec fn other_button(n: i64) -> u16 {
    if n == 2 {
        BTN_MIDDLE
    } else if n == 3 {
        BTN_SIDE
    } else {
        BTN_EXTRA
    }
}

/// A wheel turn can be scaled to 1/120 notch units.
pub open spec fn scroll_fits(f: TapFields) -> bool {
    &&& i32::MIN <= -f.scroll_dx * 120 <= i32::MAX
    &&& i32::MIN <= -f.scroll_dy * 120 <= i32::MAX
}

/// The held modifiers other than `code`.
pub open spec fn without_code(held: Seq<u16>, code: u16) -> Seq<u16> {
    held.filter(|c: u16| c != code)
}

/// The modifiers held after a change to `code`: pressed when it was not
/// held, released otherwise.
pub open spec fn toggled(held: Seq<u16>, code: u16) -> Seq<u16> {
    if held.contains(code) {
        without_code(held, code)
    } else {
        held.push(code)
    }
}

/// What one tapped event of `kind` does.
pub open spec fn tap_step(st: TapView, now: u64, kind: u32, f: TapFields) -> (TapView, TapOutcome) {
    let same = (st, TapOutcome { reenable: false, stop: false });
    let with_b = |b: BuilderState| (TapView { b, ..st }, TapOutcome { reenable: false, stop: false });
    if kind == TAP_DISABLED_BY_TIMEOUT || kind == TAP_DISABLED_BY_USER {
        (st, TapOutcome { reenable: true, stop: false })
    } else if kind == MOUSE_MOVED || kind == LEFT_DRAGGED || kind == RIGHT_DRAGGED || kind
        == OTHER_DRAGGED {
        with_b(move_abs_step(st.b, now, f.x, f.y))
    } else if kind == LEFT_DOWN {
        with_b(input_step(st.b, now, EventType::ButtonPress, BTN_LEFT, 0, 0))
    } else if kind == LEFT_UP {
        with_b(input_step(st.b, now, EventType::ButtonRelease, BTN_LEFT, 0, 0))
    } else if kind == RIGHT_DOWN {
        with_b(input_step(st.b, now, EventType::ButtonPress, BTN_RIGHT, 0, 0))
    } else if kind == RIGHT_UP {
        with_b(input_step(st.b, now, EventType::ButtonRelease, BTN_RIGHT, 0, 0))
    } else if kind == OTHER_DOWN || kind == OTHER_UP {
        with_b(
            input_step(
                st.b,
                now,
                if kind == OTHER_DOWN {
                    EventType::ButtonPress
                } else {
                    EventType::ButtonRelease
                },
                other_button(f.button),
                0,
                0,
            ),
        )
    } else if kind == SCROLL_WHEEL {
        if f.scroll_dx != 0 || f.scroll_dy != 0 {
            with_b(
                input_step(
                    st.b,
                    now,
                    EventType::Scroll,
                    0,
                    (-f.scroll_dx * 120) as i32,
                    (-f.scroll_dy * 120) as i32,
                ),
            )
        } else {
            same
        }
    } else if kind == KEY_DOWN || kind == KEY_UP {
        if f.autorepeat {
            same
        } else {
            match f.key {
                Some(code) => {
                    let (b2, s) = key_step(st.b, now, code, kind == KEY_DOWN);
                    (TapView { b: b2, ..st }, TapOutcome { reenable: false, stop: s })
                },
                None => (TapView { unmapped: st.unmapped + 1, ..st }, TapOutcome { reenable: false, stop: false }),
            }
        }
    } else if kind == FLAGS_CHANGED {
        match f.key {
            Some(code) => {
                let pressed = !st.held.contains(code);
                let b2 = key_step(st.b, now, code, pressed).0;
                (TapView { b: b2, held: toggled(st.held, code), ..st }, TapOutcome { reenable: false, stop: false })
            },
            None => same,
        }
    } else {
        same
    }
}

/// Whether `code` is among the held modifiers.
fn holds(held: &Vec<u16>, code: u16) -> (r: bool)
    ensures
        r == held@.contains(code),
{
    let mut i: usize = 0;
    while i < held.len()
        invariant
            i <= held@.len(),
            forall|j: int| 0 <= j < i ==> held@[j] != code,
        decreases held.len() - i,
    {
        if held[i] == code {
            assert(held@[i as int] == code);
            return true;
        }
        i = i + 1;
    }
    false
}

/// The held modifiers without `code`.
fn without(held: &Vec<u16>, code: u16) -> (r: Vec<u16>)
    ensures
        r@ == without_code(held@, code),
{
    let mut r: Vec<u16> = Vec::new();
    let mut i: usize = 0;
    while i < held.len()
        invariant
            i <= held@.len(),
            r@ == without_code(held@.take(i as int), code),
        decreases held.len() - i,
    {
        proof {
            let s = held@.take(i as int + 1);
            assert(s.drop_last() =~= held@.take(i as int));
            reveal(Seq::filter);
        }
        if held[i] != code {
            r.push(held[i]);
        }
        i = i + 1;
    }
    assert(held@.take(i as int) =~= held@);
    r
}

/// The tap's callback: one event of `kind` with its fields.
pub fn tap_event(st: &mut TapState, now_us: u64, kind: u32, f: TapFields) -> (r: TapOutcome)
    requires
        kind == SCROLL_WHEEL ==> scroll_fits(f),
        old(st).unmapped < u64::MAX,
    ensures
        (final(st)@, r) == tap_step(old(st)@, now_us, kind, f),
{
    let none = TapOutcome { reenable: false, stop: false };
    if kind == TAP_DISABLED_BY_TIMEOUT || kind == TAP_DISABLED_BY_USER {
        TapOutcome { reenable: true, stop: false }
    } else if kind == MOUSE_MOVED || kind == LEFT_DRAGGED || kind == RIGHT_DRAGGED || kind
        == OTHER_DRAGGED {
        st.b.move_abs(now_us, f.x, f.y);
        none
    } else if kind == LEFT_DOWN {
        st.b.button(now_us, BTN_LEFT, true);
        none
    } else if kind == LEFT_UP {
        st.b.button(now_us, BTN_LEFT, false);
        none
    } else if kind == RIGHT_DOWN {
        st.b.button(now_us, BTN_RIGHT, true);
        none
    } else if kind == RIGHT_UP {
        st.b.button(now_us, BTN_RIGHT, false);
        none
    } else if kind == OTHER_DOWN || kind == OTHER_UP {
        let code = if f.button == 2 {
            BTN_MIDDLE
        } else if f.button == 3 {
            BTN_SIDE
        } else {
            BTN_EXTRA
        };
        st.b.button(now_us, code, kind == OTHER_DOWN);
        none
    } else if kind == SCROLL_WHEEL {
        if f.scroll_dx != 0 || f.scroll_dy != 0 {
            st.b.scroll(now_us, -f.scroll_dx * 120, -f.scroll_dy * 120);
        }
        none
    } else if kind == KEY_DOWN || kind == KEY_UP {
        if f.autorepeat {
            return none;
        }
        match f.key {
            Some(code) => {
                let s = st.b.key(now_us, code, kind == KEY_DOWN);
                TapOutcome { reenable: false, stop: s }
            },
            None => {
                st.unmapped = st.unmapped + 1;
                none
            },
        }
    } else if kind == FLAGS_CHANGED {
        if let Some(code) = f.key {
            let ghost held0 = st.held_modifiers@;
            let pressed = !holds(&st.held_modifiers, code);
            if pressed {
                st.held_modifiers.push(code);
            } else {
                st.held_modifiers = without(&st.held_modifiers, code);
            }
            assert(st.held_modifiers@ == toggled(held0, code));
            st.b.key(now_us, code, pressed);
        }
        none
    } else {
        none
    }
}

} // verus!
