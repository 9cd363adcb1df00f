//! The evdev recorder's decisions: what one kernel `input_event` means, the
//! line form raw events take between the elevated helper and its parent,
//! and how raw events feed a [`Builder`].

use super::builder::{input_step, key_step, motion_fits, motion_step, Builder, BuilderState};
use super::touchpad::{abs_step, frame_step, Out, PadState, Touchpad};
use super::Options;
use crate::bytes::{get16, get32, get_i64, i32_from_bits, i32_of_bits, read_i64};
use crate::chars::chars_of;
use crate::format::EventType;
use crate::num::{
    append_dec, append_dec_i64, dec, dec_int, parse_i64, parse_unsigned, signed_value,
    unsigned_value,
};
use crate::num::{all_digits, is_digit, lemma_dec, lemma_signed_dec, lemma_unsigned_dec};
use crate::text::{lemma_words_cons, lemma_words_one, solid, split_words, views, words_from};
use crate::zip::{rd16, rd32};
use vstd::prelude::*;
use vstd::string::*;

verus! {

/// Why evdev recording could not start.
pub enum Error {
    Permission,
    Other(String),
}

pub const PERMISSION_HINT: &'static str = "no readable input devices under /dev/input: run as root, allow the pkexec prompt, or add yourself to the `input` group";

/// One raw input event.
#[derive(Clone, Copy, Debug, PartialEq, Eq, Structural)]
pub enum Raw {
    Key { code: u16, pressed: bool },
    Button { code: u16, pressed: bool },
    Rel { dx: i32, dy: i32 },
    Scroll { x: i32, y: i32 },
}

/// A raw input event with a CLOCK_MONOTONIC timestamp, so events from
/// different processes (the pkexec helper, the cursor stream) can be merged.
#[derive(Clone, Copy, Debug, PartialEq, Eq, Structural)]
pub struct RawEvent {
    pub t_us: u64,
    pub ev: Raw,
}

// ---- the line form ------------------------------------------------------------

/// `0` or `1`.
pub open spec fn flag_text(b: bool) -> Seq<char> {
    if b {
        "1"@
    } else {
        "0"@
    }
}

/// The line form of a raw event: its letter, time and two values.
pub open spec fn line_text(e: RawEvent) -> Seq<char> {
    match e.ev {
        Raw::Key { code, pressed } => "K "@ + dec(e.t_us as nat) + " "@ + dec(code as nat) + " "@
            + flag_text(pressed),
        Raw::Button { code, pressed } => "B "@ + dec(e.t_us as nat) + " "@ + dec(code as nat) + " "@
            + flag_text(pressed),
        Raw::Rel { dx, dy } => "R "@ + dec(e.t_us as nat) + " "@ + dec_int(dx as int) + " "@ + dec_int(
            dy as int,
        ),
        Raw::Scroll { x, y } => "S "@ + dec(e.t_us as nat) + " "@ + dec_int(x as int) + " "@ + dec_int(
            y as int,
        ),
    }
}

/// The raw event a line stands for: its first four words are a letter
/// `K`, `B`, `R` or `S`, a time and two values; further words are ignored.
/// Key and button codes keep the low 16 bits of their value, motion the low
/// 32 bits; a key or button is pressed when its second value is not zero.
pub open spec fn event_of_line(line: Seq<char>) -> Option<RawEvent> {
    let ws = words_from(line, 0);
    if ws.len() < 4 {
        None
    } else {
        match unsigned_value(ws[1], u64::MAX as nat) {
            None => None,
            Some(t) => match signed_value(ws[2], i64::MIN as int, i64::MAX as nat) {
                None => None,
                Some(a) => match signed_value(ws[3], i64::MIN as int, i64::MAX as nat) {
                    None => None,
                    Some(b) => {
                        let ev = if ws[0] == "K"@ {
                            Some(Raw::Key { code: a as u16, pressed: b != 0 })
                        } else if ws[0] == "B"@ {
                            Some(Raw::Button { code: a as u16, pressed: b != 0 })
                        } else if ws[0] == "R"@ {
                            Some(Raw::Rel { dx: a as i32, dy: b as i32 })
                        } else if ws[0] == "S"@ {
                            Some(Raw::Scroll { x: a as i32, y: b as i32 })
                        } else {
                            None
                        };
                        match ev {
                            Some(ev) => Some(RawEvent { t_us: t as u64, ev }),
                            None => None,
                        }
                    },
                },
            },
        }
    }
}

fn append_flag(s: &mut String, b: bool)
    ensures
        final(s)@ == old(s)@ + flag_text(b),
{
    if b {
        s.append("1");
    } else {
        s.append("0");
    }
}

impl RawEvent {
    /// Line form used between the elevated helper and its parent.
    pub fn to_line(self) -> (s: String)
        ensures
            s@ == line_text(self),
    {
        let mut s = String::new();
        match self.ev {
            Raw::Key { code, pressed } => {
                s.append("K ");
                append_dec(&mut s, self.t_us);
                s.append(" ");
                append_dec(&mut s, code as u64);
                s.append(" ");
                append_flag(&mut s, pressed);
            },
            Raw::Button { code, pressed } => {
                s.append("B ");
                append_dec(&mut s, self.t_us);
                s.append(" ");
                append_dec(&mut s, code as u64);
                s.append(" ");
                append_flag(&mut s, pressed);
            },
            Raw::Rel { dx, dy } => {
                s.append("R ");
                append_dec(&mut s, self.t_us);
                s.append(" ");
                append_dec_i64(&mut s, dx as i64);
                s.append(" ");
                append_dec_i64(&mut s, dy as i64);
            },
            Raw::Scroll { x, y } => {
                s.append("S ");
                append_dec(&mut s, self.t_us);
                s.append(" ");
                append_dec_i64(&mut s, x as i64);
                s.append(" ");
                append_dec_i64(&mut s, y as i64);
            },
        }
        assert(s@ =~= line_text(self));
        s
    }

    pub fn from_line(line: &str) -> (r: Option<RawEvent>)
        ensures
            r == event_of_line(line@),
    {
        let cs = chars_of(line);
        let ws = split_words(cs.as_slice());
        if ws.len() < 4 {
            return None;
        }
        assert(views(ws@)[1] == ws@[1]@);
        assert(views(ws@)[2] == ws@[2]@);
        assert(views(ws@)[3] == ws@[3]@);
        assert(views(ws@)[0] == ws@[0]@);
        let t_us = match parse_unsigned(ws[1].as_slice(), u64::MAX) {
            Some(t) => t,
            None => return None,
        };
        let a = match parse_i64(ws[2].as_slice()) {
            Some(v) => v,
            None => return None,
        };
        let b = match parse_i64(ws[3].as_slice()) {
            Some(v) => v,
            None => return None,
        };
        let k = ws[0].as_slice();
        let ev = if crate::chars::spells(k, "K") {
            Raw::Key { code: a as u16, pressed: b != 0 }
        } else if crate::chars::spells(k, "B") {
            Raw::Button { code: a as u16, pressed: b != 0 }
        } else if crate::chars::spells(k, "R") {
            Raw::Rel { dx: a as i32, dy: b as i32 }
        } else if crate::chars::spells(k, "S") {
            Raw::Scroll { x: a as i32, y: b as i32 }
        } else {
            return None;
        };
        Some(RawEvent { t_us, ev })
    }
}

/// Decimal text has no white space in it.
proof fn lemma_dec_solid(v: int)
    ensures
        solid(dec_int(v)),
        dec_int(v).len() > 0,
{
    let n = if v < 0 {
        (-v) as nat
    } else {
        v as nat
    };
    lemma_dec(n);
    assert forall|i: int| 0 <= i < dec_int(v).len() implies !crate::chars::white_space(
        #[trigger] dec_int(v)[i],
    ) by {
        if v < 0 {
            if i > 0 {
                assert(dec_int(v)[i] == dec(n)[i - 1]);
                assert(is_digit(dec(n)[i - 1]));
            }
        } else {
            assert(is_digit(dec(n)[i]));
        }
    }
}

/// The words of `letter t a b`.
proof fn lemma_line_words(l: char, t: Seq<char>, a: Seq<char>, b: Seq<char>)
    requires
        !crate::chars::white_space(l),
        t.len() > 0 && solid(t),
        a.len() > 0 && solid(a),
        b.len() > 0 && solid(b),
    ensures
        words_from(seq![l, ' '] + t + seq![' '] + a + seq![' '] + b, 0) == seq![seq![l], t, a, b],
{
    let r3 = b;
    let r2 = a + seq![' '] + r3;
    let r1 = t + seq![' '] + r2;
    assert(seq![l, ' '] + t + seq![' '] + a + seq![' '] + b =~= seq![l] + seq![' '] + r1);
    assert(solid(seq![l]));
    lemma_words_cons(seq![l], r1);
    lemma_words_cons(t, r2);
    lemma_words_cons(a, r3);
    lemma_words_one(b);
    assert(seq![seq![l]] + (seq![t] + (seq![a] + seq![b])) =~= seq![seq![l], t, a, b]);
}

/// The line form reads back as the same raw event: what the elevated helper
/// writes, its parent parses unchanged.
pub proof fn law_line_roundtrip(e: RawEvent)
    ensures
        event_of_line(line_text(e)) == Some(e),
{
    reveal_strlit("K ");
    reveal_strlit("B ");
    reveal_strlit("R ");
    reveal_strlit("S ");
    reveal_strlit(" ");
    reveal_strlit("K");
    reveal_strlit("B");
    reveal_strlit("R");
    reveal_strlit("S");
    reveal_strlit("0");
    reveal_strlit("1");
    let t = dec(e.t_us as nat);
    lemma_dec_solid(e.t_us as int);
    lemma_unsigned_dec(e.t_us as nat, u64::MAX as nat);
    assert(dec_int(e.t_us as int) == t);
    let (letter, a, b, av, bv): (char, Seq<char>, Seq<char>, int, int) = match e.ev {
        Raw::Key { code, pressed } => ('K', dec(code as nat), flag_text(pressed), code as int, if pressed { 1int } else { 0int }),
        Raw::Button { code, pressed } => ('B', dec(code as nat), flag_text(pressed), code as int, if pressed { 1int } else { 0int }),
        Raw::Rel { dx, dy } => ('R', dec_int(dx as int), dec_int(dy as int), dx as int, dy as int),
        Raw::Scroll { x, y } => ('S', dec_int(x as int), dec_int(y as int), x as int, y as int),
    };
    assert(dec_int(av) == a) by {
        assert(dec(1) =~= "1"@);
        assert(dec(0) =~= "0"@);
    }
    assert(dec_int(bv) == b) by {
        assert(dec(1) =~= "1"@);
        assert(dec(0) =~= "0"@);
    }
    lemma_dec_solid(av);
    lemma_dec_solid(bv);
    lemma_signed_dec(av, i64::MIN as int, i64::MAX as nat);
    lemma_signed_dec(bv, i64::MIN as int, i64::MAX as nat);
    lemma_line_words(letter, t, a, b);
    assert(line_text(e) =~= seq![letter, ' '] + t + seq![' '] + a + seq![' '] + b);
    let ws = words_from(line_text(e), 0);
    assert(ws.len() == 4);
    assert(ws[0] == seq![letter]);
    assert(unsigned_value(ws[1], u64::MAX as nat) == Some(e.t_us as nat));
    assert(signed_value(ws[2], i64::MIN as int, i64::MAX as nat) == Some(av));
    assert(signed_value(ws[3], i64::MIN as int, i64::MAX as nat) == Some(bv));
    assert("K"@ =~= seq!['K']);
    assert("B"@ =~= seq!['B']);
    assert("R"@ =~= seq!['R']);
    assert("S"@ =~= seq!['S']);
    match e.ev {
        Raw::Key { code, pressed } => {
            assert(ws[0] == "K"@);
        },
        Raw::Button { code, pressed } => {
            assert(ws[0] == "B"@);
            assert(ws[0][0] != "K"@[0]);
        },
        Raw::Rel { dx, dy } => {
            assert(ws[0] == "R"@);
            assert(ws[0][0] != "K"@[0]);
            assert(ws[0][0] != "B"@[0]);
        },
        Raw::Scroll { x, y } => {
            assert(ws[0] == "S"@);
            assert(ws[0][0] != "K"@[0]);
            assert(ws[0][0] != "B"@[0]);
            assert(ws[0][0] != "R"@[0]);
        },
    }
}

// ---- one input_event ------------------------------------------------------------

pub const EV_SYN: u16 = 0;
pub const EV_KEY: u16 = 1;
pub const EV_REL: u16 = 2;
pub const EV_ABS: u16 = 3;
pub const REL_X: u16 = 0;
pub const REL_Y: u16 = 1;
pub const REL_HWHEEL: u16 = 6;
pub const REL_WHEEL: u16 = 8;
pub const REL_WHEEL_HI_RES: u16 = 11;
pub const REL_HWHEEL_HI_RES: u16 = 12;
pub const BTN_MOUSE_FIRST: u16 = 0x110;
pub const BTN_MOUSE_LAST: u16 = 0x117;
/// `struct input_event` on 64-bit Linux.
pub const INPUT_EVENT_LEN: usize = 24;
pub const KEY_MAX: u16 = 0x100;

/// What a device's event asks the reading loop to do.
#[derive(Clone, Copy, Debug, PartialEq, Eq, Structural)]
pub enum Flow {
    Continue,
    Stop,
}

/// What a [`Device`] holds: the wheel movement of the current frame (hi-res
/// wins over legacy notches) and its touchpad, if it is one.
pub ghost struct DeviceState {
    pub wheel: i32,
    pub hwheel: i32,
    pub wheel_hi: i32,
    pub hwheel_hi: i32,
    pub has_hi_res: bool,
    pub touchpad: Option<PadState>,
}

/// The time of an event whose header stamps it `sec`, `usec`: that stamp,
/// or the clock's reading `clock_us` when the header has none.
pub open spec fn event_time(sec: i64, usec: i64, clock_us: u64) -> u64 {
    if sec > 0 {
        (sec * 1_000_000 + usec) as u64
    } else {
        clock_us
    }
}

/// The stamp fits in microseconds as a `u64`.
pub open spec fn time_fits(sec: i64, usec: i64) -> bool {
    sec > 0 ==> 0 <= usec && sec * 1_000_000 + usec <= u64::MAX
}

/// `a + b` fits in an `i32`.
pub open spec fn sum_fits(a: i32, b: i32) -> bool {
    i32::MIN <= a + b <= i32::MAX
}

/// The wheel sums and scroll amounts of a device stay within `i32`.
pub open spec fn wheel_fits(d: DeviceState) -> bool {
    &&& i32::MIN < d.wheel_hi
    &&& i32::MIN <= d.hwheel * 120 <= i32::MAX
    &&& i32::MIN <= -(d.wheel * 120) <= i32::MAX
}

/// The scroll a frame ends with: hi-res when the device has it, else whole
/// notches; +y is down, the kernel's +wheel is up.
pub open spec fn frame_scroll(d: DeviceState) -> (i32, i32) {
    if d.has_hi_res {
        (d.hwheel_hi, (-d.wheel_hi) as i32)
    } else {
        ((d.hwheel * 120) as i32, (-(d.wheel * 120)) as i32)
    }
}

/// The button event of a touchpad output.
pub open spec fn out_event(o: Out, t: u64) -> RawEvent {
    match o {
        Out::Press(c) => RawEvent { t_us: t, ev: Raw::Button { code: c, pressed: true } },
        Out::Release(c) => RawEvent { t_us: t, ev: Raw::Button { code: c, pressed: false } },
    }
}

/// Frame boundary: touchpad clicks, then the accumulated wheel movement;
/// the wheel sums start again.
pub open spec fn frame_end(d: DeviceState, t: u64) -> (DeviceState, Seq<RawEvent>) {
    let (tp, clicks) = match d.touchpad {
        Some(p) => (Some(frame_step(p, t).0), frame_step(p, t).1.map_values(|o: Out| out_event(o, t))),
        None => (None, seq![]),
    };
    let (sx, sy) = frame_scroll(d);
    (
        DeviceState { wheel: 0, hwheel: 0, wheel_hi: 0, hwheel_hi: 0, touchpad: tp, ..d },
        if sx != 0 || sy != 0 {
            clicks.push(RawEvent { t_us: t, ev: Raw::Scroll { x: sx, y: sy } })
        } else {
            clicks
        },
    )
}

/// What one event of type `typ`, `code` and `value` at time `t` does to a
/// device: its new state, whether reading goes on, and the raw events it
/// yields.
pub open spec fn handled(
    d: DeviceState,
    stop_key: Option<u16>,
    typ: u16,
    code: u16,
    value: i32,
    t: u64,
) -> (DeviceState, Flow, Seq<RawEvent>) {
    if typ == EV_KEY {
        let pressed = value != 0;
        if value == 2 {
            (d, Flow::Continue, seq![])
        } else if d.touchpad is Some && (code == BTN_MOUSE_FIRST || Touchpad::tool_key(code)) {
            let p = d.touchpad.unwrap();
            (
                DeviceState {
                    touchpad: Some(PadState { frame_keys: p.frame_keys.push((code, pressed)), ..p }),
                    ..d
                },
                Flow::Continue,
                seq![],
            )
        } else if BTN_MOUSE_FIRST <= code <= BTN_MOUSE_LAST {
            (d, Flow::Continue, seq![RawEvent { t_us: t, ev: Raw::Button { code, pressed } }])
        } else if code < KEY_MAX {
            if stop_key == Some(code) {
                (
                    d,
                    if pressed {
                        Flow::Stop
                    } else {
                        Flow::Continue
                    },
                    seq![],
                )
            } else {
                (d, Flow::Continue, seq![RawEvent { t_us: t, ev: Raw::Key { code, pressed } }])
            }
        } else {
            (d, Flow::Continue, seq![])
        }
    } else if typ == EV_REL {
        if code == REL_X {
            (d, Flow::Continue, seq![RawEvent { t_us: t, ev: Raw::Rel { dx: value, dy: 0 } }])
        } else if code == REL_Y {
            (d, Flow::Continue, seq![RawEvent { t_us: t, ev: Raw::Rel { dx: 0, dy: value } }])
        } else if code == REL_WHEEL {
            (DeviceState { wheel: (d.wheel + value) as i32, ..d }, Flow::Continue, seq![])
        } else if code == REL_HWHEEL {
            (DeviceState { hwheel: (d.hwheel + value) as i32, ..d }, Flow::Continue, seq![])
        } else if code == REL_WHEEL_HI_RES {
            (
                DeviceState { wheel_hi: (d.wheel_hi + value) as i32, has_hi_res: true, ..d },
                Flow::Continue,
                seq![],
            )
        } else if code == REL_HWHEEL_HI_RES {
            (
                DeviceState { hwheel_hi: (d.hwheel_hi + value) as i32, has_hi_res: true, ..d },
                Flow::Continue,
                seq![],
            )
        } else {
            (d, Flow::Continue, seq![])
        }
    } else if typ == EV_ABS {
        match d.touchpad {
            Some(p) => (DeviceState { touchpad: Some(abs_step(p, code, value)), ..d }, Flow::Continue, seq![]),
            None => (d, Flow::Continue, seq![]),
        }
    } else if typ == EV_SYN {
        let (d2, evs) = frame_end(d, t);
        (d2, Flow::Continue, evs)
    } else {
        (d, Flow::Continue, seq![])
    }
}

/// The event's arithmetic stays within range: the wheel sums it adds to,
/// and the scroll a frame boundary computes.
pub open spec fn handle_fits(d: DeviceState, typ: u16, code: u16, value: i32) -> bool {
    &&& (typ == EV_REL && code == REL_WHEEL ==> sum_fits(d.wheel, value))
    &&& (typ == EV_REL && code == REL_HWHEEL ==> sum_fits(d.hwheel, value))
    &&& (typ == EV_REL && code == REL_WHEEL_HI_RES ==> sum_fits(d.wheel_hi, value))
    &&& (typ == EV_REL && code == REL_HWHEEL_HI_RES ==> sum_fits(d.hwheel_hi, value))
    &&& (typ == EV_SYN ==> wheel_fits(d))
}

/// The per-device state of the evdev recorder.
pub struct Device {
    pub wheel: i32,
    pub hwheel: i32,
    pub wheel_hi: i32,
    pub hwheel_hi: i32,
    pub has_hi_res: bool,
    /// Present for touchpads: synthesises tap-to-click and clickfinger.
    pub touchpad: Option<Touchpad>,
}

impl View for Device {
    type V = DeviceState;

    open spec fn view(&self) -> DeviceState {
        DeviceState {
            wheel: self.wheel,
            hwheel: self.hwheel,
            wheel_hi: self.wheel_hi,
            hwheel_hi: self.hwheel_hi,
            has_hi_res: self.has_hi_res,
            touchpad: match self.touchpad {
                Some(t) => Some(t@),
                None => None,
            },
        }
    }
}

/// The type, code and value of the `input_event` in `e`.
pub open spec fn event_fields(e: Seq<u8>) -> (u16, u16, i32) {
    (get16(e, 16), get16(e, 18), i32_of_bits(get32(e, 20)))
}

impl Device {
    pub fn new(touchpad: Option<Touchpad>) -> (d: Self)
        ensures
            d@ == (DeviceState {
                wheel: 0,
                hwheel: 0,
                wheel_hi: 0,
                hwheel_hi: 0,
                has_hi_res: false,
                touchpad: match touchpad {
                    Some(t) => Some(t@),
                    None => None,
                },
            }),
    {
        Device { wheel: 0, hwheel: 0, wheel_hi: 0, hwheel_hi: 0, has_hi_res: false, touchpad }
    }

    /// Whether `handle` can take the 24-byte event `e` (its stamp and the
    /// sums it adds to stay in range).
    pub fn fits(&self, e: &[u8]) -> (r: bool)
        requires
            e@.len() == INPUT_EVENT_LEN,
        ensures
            r == (time_fits(get_i64(e@, 0), get_i64(e@, 8)) && handle_fits(
                self@,
                event_fields(e@).0,
                event_fields(e@).1,
                event_fields(e@).2,
            )),
    {
        let sec = read_i64(e, 0);
        let usec = read_i64(e, 8);
        let typ = rd16(e, 16);
        let code = rd16(e, 18);
        let value = i32_from_bits(rd32(e, 20));
        let time_ok = sec <= 0 || (usec >= 0 && sec as i128 * 1_000_000 + usec as i128 <= u64::MAX as i128);
        let sum = |a: i32| -> (r: bool)
            ensures
                r == sum_fits(a, value),
            { a as i64 + value as i64 >= i32::MIN as i64 && a as i64 + value as i64 <= i32::MAX as i64 };
        let wheel_ok = self.wheel_hi > i32::MIN && self.hwheel as i64 * 120 >= i32::MIN as i64
            && self.hwheel as i64 * 120 <= i32::MAX as i64 && -(self.wheel as i64 * 120)
            >= i32::MIN as i64 && -(self.wheel as i64 * 120) <= i32::MAX as i64;
        let ok = (!(typ == EV_REL && code == REL_WHEEL) || sum(self.wheel)) && (!(typ == EV_REL
            && code == REL_HWHEEL) || sum(self.hwheel)) && (!(typ == EV_REL && code
            == REL_WHEEL_HI_RES) || sum(self.wheel_hi)) && (!(typ == EV_REL && code
            == REL_HWHEEL_HI_RES) || sum(self.hwheel_hi)) && (!(typ == EV_SYN) || wheel_ok);
        time_ok && ok
    }

    /// Frame boundary: touchpad clicks and the accumulated wheel movement.
    pub fn end_of_frame(&mut self, t_us: u64) -> (evs: Vec<RawEvent>)
        requires
            wheel_fits(old(self)@),
        ensures
            (final(self)@, evs@) == frame_end(old(self)@, t_us),
    {
        let mut evs: Vec<RawEvent> = Vec::new();
        let mut tp = None;
        std::mem::swap(&mut tp, &mut self.touchpad);
        let ghost tp0 = tp;
        if let Some(mut p) = tp {
            let outs = p.frame(t_us);
            let mut i: usize = 0;
            while i < outs.len()
                invariant
                    i <= outs@.len(),
                    evs@ == outs@.take(i as int).map_values(|o: Out| out_event(o, t_us)),
                decreases outs.len() - i,
            {
                let (code, pressed) = match outs[i] {
                    Out::Press(c) => (c, true),
                    Out::Release(c) => (c, false),
                };
                evs.push(RawEvent { t_us, ev: Raw::Button { code, pressed } });
                proof {
                    assert(outs@.take(i as int + 1).map_values(|o: Out| out_event(o, t_us)) =~= outs@.take(
                        i as int,
                    ).map_values(|o: Out| out_event(o, t_us)).push(out_event(outs@[i as int], t_us)));
                }
                i = i + 1;
            }
            assert(outs@.take(i as int) =~= outs@);
            self.touchpad = Some(p);
        }
        let (sx, sy) = if self.has_hi_res {
            (self.hwheel_hi, -self.wheel_hi)
        } else {
            (self.hwheel * 120, -(self.wheel * 120))
        };
        if sx != 0 || sy != 0 {
            evs.push(RawEvent { t_us, ev: Raw::Scroll { x: sx, y: sy } });
        }
        self.wheel = 0;
        self.hwheel = 0;
        self.wheel_hi = 0;
        self.hwheel_hi = 0;
        evs
    }

    /// Handle one 24-byte `input_event`: whether reading goes on, and the raw
    /// events it yields.  `clock_us` is the CLOCK_MONOTONIC reading used when
    /// the event carries no time stamp.
    pub fn handle(&mut self, opts: &Options, e: &[u8], clock_us: u64) -> (r: (Flow, Vec<RawEvent>))
        requires
            e@.len() == INPUT_EVENT_LEN,
            time_fits(get_i64(e@, 0), get_i64(e@, 8)),
            handle_fits(old(self)@, event_fields(e@).0, event_fields(e@).1, event_fields(e@).2),
        ensures
            ({
                let (typ, code, value) = event_fields(e@);
                let t = event_time(get_i64(e@, 0), get_i64(e@, 8), clock_us);
                let (d, flow, evs) = handled(old(self)@, opts.stop_key, typ, code, value, t);
                final(self)@ == d && r.0 == flow && r.1@ == evs
            }),
    {
        let sec = read_i64(e, 0);
        let usec = read_i64(e, 8);
        let t_us = if sec > 0 {
            (sec as u64) * 1_000_000 + usec as u64
        } else {
            clock_us
        };
        let typ = rd16(e, 16);
        let code = rd16(e, 18);
        let value = i32_from_bits(rd32(e, 20));
        let mut evs: Vec<RawEvent> = Vec::new();
        if typ == EV_KEY {
            if value == 2 {
                return (Flow::Continue, evs);  // autorepeat
            }
            let pressed = value != 0;
            let to_pad = self.touchpad.is_some() && (code == BTN_MOUSE_FIRST || Touchpad::is_tool_key(code));
            if to_pad {
                let mut tp = None;
                std::mem::swap(&mut tp, &mut self.touchpad);
                if let Some(mut p) = tp {
                    p.key(code, pressed);  // decided at the end of the frame
                    self.touchpad = Some(p);
                }
            } else if BTN_MOUSE_FIRST <= code && code <= BTN_MOUSE_LAST {
                evs.push(RawEvent { t_us, ev: Raw::Button { code, pressed } });
            } else if code < KEY_MAX {
                if let Some(k) = opts.stop_key {
                    if k == code {
                        return (
                            if pressed {
                                Flow::Stop
                            } else {
                                Flow::Continue
                            },
                            evs,
                        );
                    }
                }
                evs.push(RawEvent { t_us, ev: Raw::Key { code, pressed } });
            }
        } else if typ == EV_REL {
            if code == REL_X {
                evs.push(RawEvent { t_us, ev: Raw::Rel { dx: value, dy: 0 } });
            } else if code == REL_Y {
                evs.push(RawEvent { t_us, ev: Raw::Rel { dx: 0, dy: value } });
            } else if code == REL_WHEEL {
                self.wheel = self.wheel + value;
            } else if code == REL_HWHEEL {
                self.hwheel = self.hwheel + value;
            } else if code == REL_WHEEL_HI_RES {
                self.wheel_hi = self.wheel_hi + value;
                self.has_hi_res = true;
            } else if code == REL_HWHEEL_HI_RES {
                self.hwheel_hi = self.hwheel_hi + value;
                self.has_hi_res = true;
            }
        } else if typ == EV_ABS {
            let mut tp = None;
            std::mem::swap(&mut tp, &mut self.touchpad);
            if let Some(mut p) = tp {
                p.abs(code, value);
                self.touchpad = Some(p);
            }
        } else if typ == EV_SYN {
            evs = self.end_of_frame(t_us);
        }
        (Flow::Continue, evs)
    }
}

/// A raw event's effect on a builder; relative motion is dropped when
/// `ignore_motion`.
pub open spec fn applied(b: BuilderState, e: RawEvent, ignore_motion: bool) -> BuilderState {
    match e.ev {
        Raw::Key { code, pressed } => key_step(b, e.t_us, code, pressed).0,
        Raw::Button { code, pressed } => input_step(
            b,
            e.t_us,
            if pressed {
                EventType::ButtonPress
            } else {
                EventType::ButtonRelease
            },
            code,
            0,
            0,
        ),
        Raw::Rel { dx, dy } => if ignore_motion {
            b
        } else {
            motion_step(b, e.t_us, dx, dy)
        },
        Raw::Scroll { x, y } => input_step(b, e.t_us, EventType::Scroll, 0, x, y),
    }
}

/// Feed a raw event into a [`Builder`]; motion is relative here.
pub fn apply(b: &mut Builder, e: &RawEvent, ignore_motion: bool)
    requires
        match e.ev {
            Raw::Rel { dx, dy } => !ignore_motion ==> motion_fits(old(b)@, e.t_us, dx, dy),
            _ => true,
        },
    ensures
        final(b)@ == applied(old(b)@, *e, ignore_motion),
{
    match e.ev {
        Raw::Key { code, pressed } => {
            b.key(e.t_us, code, pressed);
        },
        Raw::Button { code, pressed } => b.button(e.t_us, code, pressed),
        Raw::Rel { dx, dy } => {
            if !ignore_motion {
                b.motion(e.t_us, dx, dy)
            }
        },
        Raw::Scroll { x, y } => b.scroll(e.t_us, x, y),
    }
}

/// What evdev events mean.  The header stamp is seconds and microseconds
/// (the clock's reading when it has none); the type, code and value sit at
/// bytes 16, 18 and 20.  `REL_X` and `REL_Y` (codes 0 and 1 of `EV_REL`)
/// are one relative move each, along x and along y.  A mouse button
/// (`0x110..=0x117`) pressed or released is that button, and a key below
/// `0x100` is that key, unless it is the stop key, which yields nothing and
/// stops on its press.  Wheel notches (`REL_WHEEL` up, `REL_HWHEEL` right)
/// pile up until the frame ends (`EV_SYN`), which yields one scroll of 120
/// per notch, +y down and +x right.
pub proof fn law_evdev_meaning(
    d: DeviceState,
    stop_key: Option<u16>,
    code: u16,
    value: i32,
    v: i32,
    w: i32,
    t: u64,
    sec: i64,
    usec: i64,
    clock_us: u64,
    e: Seq<u8>,
)
    requires
        time_fits(sec, usec),
        e.len() == 24,
    ensures
        sec > 0 ==> event_time(sec, usec, clock_us) == sec * 1_000_000 + usec,
        sec <= 0 ==> event_time(sec, usec, clock_us) == clock_us,
        event_fields(e) == (get16(e, 16), get16(e, 18), i32_of_bits(get32(e, 20))),
        handled(d, stop_key, 2, 0, value, t) == (d, Flow::Continue, seq![RawEvent { t_us: t, ev: Raw::Rel { dx: value, dy: 0 } }]),
        handled(d, stop_key, 2, 1, value, t) == (d, Flow::Continue, seq![RawEvent { t_us: t, ev: Raw::Rel { dx: 0, dy: value } }]),
        d.touchpad is None && 0x110 <= code <= 0x117 && (value == 0 || value == 1) ==> handled(d, stop_key, 1, code, value, t)
            == (d, Flow::Continue, seq![RawEvent { t_us: t, ev: Raw::Button { code, pressed: value == 1 } }]),
        code < 0x100 && (value == 0 || value == 1) && stop_key != Some(code) ==> handled(d, stop_key, 1, code, value, t)
            == (d, Flow::Continue, seq![RawEvent { t_us: t, ev: Raw::Key { code, pressed: value == 1 } }]),
        code < 0x100 && (value == 0 || value == 1) && stop_key == Some(code) ==> handled(d, stop_key, 1, code, value, t).2
            == Seq::<RawEvent>::empty() && (handled(d, stop_key, 1, code, value, t).1 == Flow::Stop <==> value == 1),
        ({
            let quiet = DeviceState { wheel: 0, hwheel: 0, wheel_hi: 0, hwheel_hi: 0, has_hi_res: false, touchpad: None };
            let d1 = handled(quiet, stop_key, 2, 8, v, t).0;
            let d2 = handled(d1, stop_key, 2, 6, w, t).0;
            let (d3, f, evs) = handled(d2, stop_key, 0, 0, 0, t);
            -17895697 <= v <= 17895697 && -17895697 <= w <= 17895697 ==> f == Flow::Continue && d3 == quiet
                && evs == if v == 0 && w == 0 {
                Seq::<RawEvent>::empty()
            } else {
                seq![RawEvent { t_us: t, ev: Raw::Scroll { x: (w * 120) as i32, y: (-v * 120) as i32 } }]
            }
        }),
{
    let quiet = DeviceState { wheel: 0, hwheel: 0, wheel_hi: 0, hwheel_hi: 0, has_hi_res: false, touchpad: None };
    let d1 = handled(quiet, stop_key, 2, 8, v, t).0;
    let d2 = handled(d1, stop_key, 2, 6, w, t).0;
    assert(d2 == DeviceState { wheel: v, hwheel: w, ..quiet });
    if -17895697 <= v <= 17895697 && -17895697 <= w <= 17895697 {
        assert(frame_scroll(d2) == ((w * 120) as i32, (-(v * 120)) as i32));
        assert(-17895697 * 120 <= v * 120 <= 17895697 * 120) by (nonlinear_arith)
            requires
                -17895697 <= v <= 17895697,
        ;
        assert(-17895697 * 120 <= w * 120 <= 17895697 * 120) by (nonlinear_arith)
            requires
                -17895697 <= w <= 17895697,
        ;
        assert(v * 120 == 0 <==> v == 0);
        assert(w * 120 == 0 <==> w == 0);
    }
}

} // verus!
