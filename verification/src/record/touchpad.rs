//! Turns raw touchpad frames into the clicks libinput would synthesise.
//!
//! evdev never reports a tap-to-click as a button: the pad only says that a
//! finger touched, how many fingers rest on it and where they are, and
//! libinput (inside the compositor) decides that a short, still touch was a
//! click.  Likewise a physical press of a clickpad is always `BTN_LEFT`; a
//! two- or three-finger press is turned into a right or middle click by
//! libinput's clickfinger method, the default on Apple touchpads.
//!
//! This state machine reproduces both rules with libinput's defaults: a tap
//! is a touch that ends within 180 ms, having moved less than about 2 mm,
//! with no physical press in between; finger count selects the button.

use crate::format::{BTN_LEFT, BTN_MIDDLE, BTN_RIGHT};
use crate::num::append_dec_i64;
use vstd::prelude::*;

verus! {

pub const BTN_TOOL_FINGER: u16 = 0x145;
pub const BTN_TOUCH: u16 = 0x14a;
pub const BTN_TOOL_DOUBLETAP: u16 = 0x14d;
pub const BTN_TOOL_TRIPLETAP: u16 = 0x14e;
pub const BTN_TOOL_QUADTAP: u16 = 0x14f;
pub const ABS_X: u16 = 0;
pub const ABS_Y: u16 = 1;

pub const TAP_TIMEOUT_US: u64 = 180_000;

/// A synthesised button change.
#[derive(Clone, Copy, Debug, PartialEq, Eq, Structural)]
pub enum Out {
    Press(u16),
    Release(u16),
}

/// What a [`Touchpad`] holds.
pub ghost struct PadState {
    /// Motion threshold in device units (about 2 mm).
    pub move_threshold: i32,
    pub fingers: u32,
    /// Most fingers seen during the current touch.
    pub peak_fingers: u32,
    pub touching: bool,
    pub touch_start_us: u64,
    pub start: Option<(i32, i32)>,
    pub cur: (i32, i32),
    pub moved: bool,
    pub clicked_during_touch: bool,
    /// The button reported for a physical press, so its release matches.
    pub physical: Option<u16>,
    /// The button-ish keys of the current frame.
    pub frame_keys: Seq<(u16, bool)>,
}

/// The button a click with `fingers` fingers stands for.
pub open spec fn button_for_spec(fingers: u32) -> u16 {
    if fingers == 2 {
        BTN_RIGHT
    } else if fingers == 3 {
        BTN_MIDDLE
    } else {
        BTN_LEFT
    }
}

fn button_for(fingers: u32) -> (b: u16)
    ensures
        b == button_for_spec(fingers),
{
    match fingers {
        2 => BTN_RIGHT,
        3 => BTN_MIDDLE,
        _ => BTN_LEFT,
    }
}

/// The finger count a tool key announces.
pub open spec fn tool_fingers(code: u16) -> Option<u32> {
    if code == BTN_TOOL_FINGER {
        Some(1)
    } else if code == BTN_TOOL_DOUBLETAP {
        Some(2)
    } else if code == BTN_TOOL_TRIPLETAP {
        Some(3)
    } else if code == BTN_TOOL_QUADTAP {
        Some(4)
    } else {
        None
    }
}

/// The finger count after one key of a frame.
pub open spec fn finger_step(f: u32, k: (u16, bool)) -> u32 {
    match tool_fingers(k.0) {
        None => f,
        Some(n) => if k.1 {
            n
        } else if f == n {
            0
        } else {
            f
        },
    }
}

/// The finger count after the keys of a frame.
pub open spec fn fingers_after(f: u32, keys: Seq<(u16, bool)>) -> u32
    decreases keys.len(),
{
    if keys.len() == 0 {
        f
    } else {
        finger_step(fingers_after(f, keys.drop_last()), keys.last())
    }
}

pub open spec fn max1(n: u32) -> u32 {
    if n > 1 {
        n
    } else {
        1
    }
}

/// One touch or button key of a frame stamped `t`: the new state and the
/// clicks it makes.
pub open spec fn touch_step(s: PadState, k: (u16, bool), t: u64) -> (PadState, Seq<Out>) {
    let (code, pressed) = k;
    if code == BTN_TOUCH && pressed && !s.touching {
        (
            PadState {
                touching: true,
                touch_start_us: t,
                peak_fingers: max1(s.fingers),
                start: Some(s.cur),
                moved: false,
                clicked_during_touch: false,
                ..s
            },
            seq![],
        )
    } else if code == BTN_TOUCH && !pressed && s.touching {
        let held = if t >= s.touch_start_us {
            t - s.touch_start_us
        } else {
            0
        };
        let b = button_for_spec(max1(s.peak_fingers));
        (
            PadState { touching: false, start: None, ..s },
            if held <= TAP_TIMEOUT_US && !s.moved && !s.clicked_during_touch {
                seq![Out::Press(b), Out::Release(b)]
            } else {
                seq![]
            },
        )
    } else if code == BTN_LEFT && pressed {
        let b = button_for_spec(max1(s.fingers));
        (PadState { clicked_during_touch: true, physical: Some(b), ..s }, seq![Out::Press(b)])
    } else if code == BTN_LEFT && !pressed {
        match s.physical {
            Some(b) => (PadState { physical: None, ..s }, seq![Out::Release(b)]),
            None => (s, seq![]),
        }
    } else {
        (s, seq![])
    }
}

/// The keys of a frame stamped `t`, in order.
pub open spec fn touch_pass(s: PadState, keys: Seq<(u16, bool)>, t: u64) -> (PadState, Seq<Out>)
    decreases keys.len(),
{
    if keys.len() == 0 {
        (s, seq![])
    } else {
        let (s1, o1) = touch_pass(s, keys.drop_last(), t);
        let (s2, o2) = touch_step(s1, keys.last(), t);
        (s2, o1 + o2)
    }
}

/// The end of a frame stamped `t`: finger count first, so a physical press
/// in the same frame sees it, then touches and presses in order.
pub open spec fn frame_step(s: PadState, t: u64) -> (PadState, Seq<Out>) {
    let keys = s.frame_keys;
    let f = fingers_after(s.fingers, keys);
    let peak = if s.touching && f > s.peak_fingers {
        f
    } else {
        s.peak_fingers
    };
    touch_pass(PadState { fingers: f, peak_fingers: peak, frame_keys: seq![], ..s }, keys, t)
}

/// A position change: the touch has moved once it strayed beyond the
/// threshold from where it started.
pub open spec fn abs_step(s: PadState, code: u16, value: i32) -> PadState {
    if code != ABS_X && code != ABS_Y {
        s
    } else {
        let cur = if code == ABS_X {
            (value, s.cur.1)
        } else {
            (s.cur.0, value)
        };
        let moved = match s.start {
            Some((sx, sy)) => s.moved || abs_int(cur.0 - sx) > s.move_threshold || abs_int(cur.1 - sy)
                > s.move_threshold,
            None => s.moved,
        };
        PadState { cur, moved, ..s }
    }
}

pub open spec fn abs_int(v: int) -> int {
    if v < 0 {
        -v
    } else {
        v
    }
}

// ---- a whole touch -------------------------------------------------------------------

/// One report of a touchpad: a key of the current frame, a position, or the
/// end of a frame and its time.
pub enum PadInput {
    Key(u16, bool),
    Abs(u16, i32),
    Frame(u64),
}

/// What the pad does with one report: `key`, `abs` or `frame`.
pub open spec fn pad_input(s: PadState, i: PadInput) -> (PadState, Seq<Out>) {
    match i {
        PadInput::Key(c, p) => (PadState { frame_keys: s.frame_keys.push((c, p)), ..s }, seq![]),
        PadInput::Abs(c, v) => (abs_step(s, c, v), seq![]),
        PadInput::Frame(t) => frame_step(s, t),
    }
}

/// What the pad does with the reports `tr`, in order.
pub open spec fn pad_run(s: PadState, tr: Seq<PadInput>) -> (PadState, Seq<Out>)
    decreases tr.len(),
{
    if tr.len() == 0 {
        (s, seq![])
    } else {
        let (s1, o1) = pad_run(s, tr.drop_last());
        let (s2, o2) = pad_input(s1, tr.last());
        (s2, o1 + o2)
    }
}

/// The keys reported since the last frame of `tr`.
pub open spec fn keys_since_frame(tr: Seq<PadInput>) -> Seq<(u16, bool)>
    decreases tr.len(),
{
    if tr.len() == 0 {
        seq![]
    } else {
        match tr.last() {
            PadInput::Key(c, p) => keys_since_frame(tr.drop_last()).push((c, p)),
            PadInput::Frame(_) => seq![],
            PadInput::Abs(_, _) => keys_since_frame(tr.drop_last()),
        }
    }
}

/// The finger count at the end of the last frame of `tr`, from `f` before it.
pub open spec fn fingers_in(f: u32, tr: Seq<PadInput>) -> u32
    decreases tr.len(),
{
    if tr.len() == 0 {
        f
    } else {
        match tr.last() {
            PadInput::Frame(_) => fingers_after(fingers_in(f, tr.drop_last()), keys_since_frame(tr.drop_last())),
            _ => fingers_in(f, tr.drop_last()),
        }
    }
}

/// The most fingers at the end of any frame of `tr`, and at least `m`.
pub open spec fn most_fingers_in(m: u32, f: u32, tr: Seq<PadInput>) -> u32
    decreases tr.len(),
{
    if tr.len() == 0 {
        m
    } else {
        let before = most_fingers_in(m, f, tr.drop_last());
        match tr.last() {
            PadInput::Frame(_) => if fingers_in(f, tr) > before {
                fingers_in(f, tr)
            } else {
                before
            },
            _ => before,
        }
    }
}

/// The position after the reports `tr`, from `c` before them.
pub open spec fn position_in(c: (i32, i32), tr: Seq<PadInput>) -> (i32, i32)
    decreases tr.len(),
{
    if tr.len() == 0 {
        c
    } else {
        let p = position_in(c, tr.drop_last());
        match tr.last() {
            PadInput::Abs(code, v) => if code == ABS_X {
                (v, p.1)
            } else if code == ABS_Y {
                (p.0, v)
            } else {
                p
            },
            _ => p,
        }
    }
}

/// Whether some position reported in `tr` (from `c` before them) is more
/// than `limit` away from `from` on either axis.
pub open spec fn strayed_in(c: (i32, i32), from: (i32, i32), limit: i32, tr: Seq<PadInput>) -> bool
    decreases tr.len(),
{
    if tr.len() == 0 {
        false
    } else {
        ||| strayed_in(c, from, limit, tr.drop_last())
        ||| match tr.last() {
            PadInput::Abs(code, _) => (code == ABS_X || code == ABS_Y) && ({
                let p = position_in(c, tr);
                abs_int(p.0 - from.0) > limit || abs_int(p.1 - from.1) > limit
            }),
            _ => false,
        }
    }
}

/// Whether `tr` reports a physical press (`BTN_LEFT` down).
pub open spec fn left_press_in(tr: Seq<PadInput>) -> bool
    decreases tr.len(),
{
    if tr.len() == 0 {
        false
    } else {
        left_press_in(tr.drop_last()) || tr.last() == PadInput::Key(BTN_LEFT, true)
    }
}

/// `tr` reports no touch key.
pub open spec fn touch_free(tr: Seq<PadInput>) -> bool {
    forall|i: int| 0 <= i < tr.len() ==> !(#[trigger] tr[i] matches PadInput::Key(c, _) && c == BTN_TOUCH)
}

/// The keys of a frame in which nothing touches or lifts.
pub open spec fn keys_touch_free(ks: Seq<(u16, bool)>) -> bool {
    forall|i: int| 0 <= i < ks.len() ==> (#[trigger] ks[i]).0 != BTN_TOUCH
}

/// Keys without a touch key only press and release: the touch, where it
/// began, the fingers and the moves stay.
proof fn lemma_pass_touch_free(s: PadState, ks: Seq<(u16, bool)>, t: u64)
    requires
        keys_touch_free(ks),
    ensures
        ({
            let r = touch_pass(s, ks, t).0;
            &&& r.touching == s.touching && r.touch_start_us == s.touch_start_us && r.start == s.start
            &&& r.fingers == s.fingers && r.peak_fingers == s.peak_fingers && r.cur == s.cur
            &&& r.moved == s.moved && r.move_threshold == s.move_threshold
            &&& r.frame_keys == s.frame_keys
            &&& r.clicked_during_touch == (s.clicked_during_touch || ks.contains((BTN_LEFT, true)))
        }),
    decreases ks.len(),
{
    if ks.len() > 0 {
        lemma_pass_touch_free(s, ks.drop_last(), t);
        let k = ks.last();
        assert(k.0 != BTN_TOUCH);
        assert(ks.contains((BTN_LEFT, true)) == (ks.drop_last().contains((BTN_LEFT, true)) || k == (
        BTN_LEFT, true))) by {
            if ks.contains((BTN_LEFT, true)) {
                let j = choose|j: int| 0 <= j < ks.len() && ks[j] == (BTN_LEFT, true);
                if j < ks.len() - 1 {
                    assert(ks.drop_last()[j] == ks[j]);
                }
            }
            if ks.drop_last().contains((BTN_LEFT, true)) {
                let j = choose|j: int| 0 <= j < ks.drop_last().len() && ks.drop_last()[j] == (BTN_LEFT, true);
                assert(ks[j] == ks.drop_last()[j]);
            }
            if k == (BTN_LEFT, true) {
                assert(ks[ks.len() - 1] == k);
            }
        }
    }
}

/// The pad's state during a touch, told from the reports since it began.
pub open spec fn touch_told(s1: PadState, tr: Seq<PadInput>, s: PadState) -> bool {
    &&& s.touching && s.touch_start_us == s1.touch_start_us && s.start == s1.start
    &&& s.move_threshold == s1.move_threshold
    &&& s.frame_keys == keys_since_frame(tr)
    &&& s.fingers == fingers_in(s1.fingers, tr)
    &&& s.peak_fingers == most_fingers_in(s1.peak_fingers, s1.fingers, tr)
    &&& s.cur == position_in(s1.cur, tr)
    &&& s.moved == strayed_in(s1.cur, s1.cur, s1.move_threshold, tr)
    &&& (s.clicked_during_touch || s.frame_keys.contains((BTN_LEFT, true))) == left_press_in(tr)
}

proof fn lemma_touch_told(s1: PadState, tr: Seq<PadInput>)
    requires
        s1.touching,
        s1.start == Some(s1.cur),
        !s1.moved,
        !s1.clicked_during_touch,
        s1.frame_keys.len() == 0,
        s1.peak_fingers >= s1.fingers,
        touch_free(tr),
    ensures
        touch_told(s1, tr, pad_run(s1, tr).0),
    decreases tr.len(),
{
    if tr.len() == 0 {
        assert(!s1.frame_keys.contains((BTN_LEFT, true)));
        assert(s1.frame_keys =~= keys_since_frame(tr));
    } else {
        let a = tr.drop_last();
        assert(touch_free(a)) by {
            assert forall|i: int| 0 <= i < a.len() implies !(#[trigger] a[i] matches PadInput::Key(c, _) && c
                == BTN_TOUCH) by {
                assert(a[i] == tr[i]);
            }
        }
        lemma_touch_told(s1, a);
        let s = pad_run(s1, a).0;
        let last = tr.last();
        assert(tr[tr.len() - 1] == last);
        match last {
            PadInput::Key(c, p) => {
                let ks = s.frame_keys.push((c, p));
                assert(ks.contains((BTN_LEFT, true)) == (s.frame_keys.contains((BTN_LEFT, true)) || (c, p)
                    == (BTN_LEFT, true))) by {
                    if ks.contains((BTN_LEFT, true)) {
                        let j = choose|j: int| 0 <= j < ks.len() && ks[j] == (BTN_LEFT, true);
                        if j < ks.len() - 1 {
                            assert(s.frame_keys[j] == ks[j]);
                        }
                    }
                    if s.frame_keys.contains((BTN_LEFT, true)) {
                        let j = choose|j: int| 0 <= j < s.frame_keys.len() && s.frame_keys[j] == (BTN_LEFT, true);
                        assert(ks[j] == s.frame_keys[j]);
                    }
                    if (c, p) == (BTN_LEFT, true) {
                        assert(ks[ks.len() - 1] == (c, p));
                    }
                }
            },
            PadInput::Abs(c, v) => {},
            PadInput::Frame(t) => {
                let ks = s.frame_keys;
                assert(keys_touch_free(ks)) by {
                    lemma_keys_since_touch_free(a);
                }
                let f = fingers_after(s.fingers, ks);
                let peak = if s.touching && f > s.peak_fingers {
                    f
                } else {
                    s.peak_fingers
                };
                lemma_pass_touch_free(PadState { fingers: f, peak_fingers: peak, frame_keys: seq![], ..s }, ks, t);
                assert(!Seq::<(u16, bool)>::empty().contains((BTN_LEFT, true)));
                assert(pad_run(s1, tr).0.frame_keys =~= keys_since_frame(tr));
            },
        }
    }
}

/// The keys since the last frame of a trace without touch keys hold none.
proof fn lemma_keys_since_touch_free(tr: Seq<PadInput>)
    requires
        touch_free(tr),
    ensures
        keys_touch_free(keys_since_frame(tr)),
    decreases tr.len(),
{
    if tr.len() > 0 {
        let a = tr.drop_last();
        assert(touch_free(a)) by {
            assert forall|i: int| 0 <= i < a.len() implies !(#[trigger] a[i] matches PadInput::Key(c, _) && c
                == BTN_TOUCH) by {
                assert(a[i] == tr[i]);
            }
        }
        lemma_keys_since_touch_free(a);
        assert(tr[tr.len() - 1] == tr.last());
        let ks = keys_since_frame(tr);
        if let PadInput::Key(c, p) = tr.last() {
            assert forall|i: int| 0 <= i < ks.len() implies (#[trigger] ks[i]).0 != BTN_TOUCH by {
                if i < ks.len() - 1 {
                    assert(ks[i] == keys_since_frame(a)[i]);
                }
            }
        }
    }
}

/// The keys of a frame in which nothing touches, lifts or presses.
pub open spec fn keys_plain(ks: Seq<(u16, bool)>) -> bool {
    forall|i: int| 0 <= i < ks.len() ==> (#[trigger] ks[i]).0 != BTN_TOUCH && ks[i].0 != BTN_LEFT
}

proof fn lemma_pass_plain(s: PadState, ks: Seq<(u16, bool)>, t: u64)
    requires
        keys_plain(ks),
    ensures
        touch_pass(s, ks, t) == (s, Seq::<Out>::empty()),
    decreases ks.len(),
{
    if ks.len() > 0 {
        let a = ks.drop_last();
        assert(keys_plain(a)) by {
            assert forall|i: int| 0 <= i < a.len() implies (#[trigger] a[i]).0 != BTN_TOUCH && a[i].0 != BTN_LEFT by {
                assert(a[i] == ks[i]);
            }
        }
        lemma_pass_plain(s, a, t);
        assert(ks[ks.len() - 1] == ks.last());
        assert(Seq::<Out>::empty() + Seq::<Out>::empty() =~= Seq::<Out>::empty());
    }
}

/// Tap-to-click over a whole touch.  A touch begins in a frame stamped `t0`
/// whose keys are `k0` (none of them a touch key) and then the touch; it
/// goes on through the reports `tr`, none of them a touch key; it ends in a
/// frame stamped `t` whose keys, after those still pending from `tr`, are
/// `k1` and then the lift, and in which nothing else touches, lifts or
/// presses.  That last frame yields a click (press, then release) of the
/// button for the most fingers seen during the touch (right for two,
/// middle for three, left otherwise) exactly when the touch lasted at most
/// 180 ms, no position strayed beyond the threshold from where it began,
/// and no physical press came during it; otherwise it yields nothing.
pub proof fn law_tap_over_a_touch(
    s0: PadState,
    k0: Seq<(u16, bool)>,
    t0: u64,
    tr: Seq<PadInput>,
    k1: Seq<(u16, bool)>,
    t: u64,
)
    requires
        !s0.touching,
        keys_touch_free(k0),
        touch_free(tr),
        keys_plain(keys_since_frame(tr) + k1),
    ensures
        ({
            let s1 = frame_step(PadState { frame_keys: k0.push((BTN_TOUCH, true)), ..s0 }, t0).0;
            let s2 = pad_run(s1, tr).0;
            let last = frame_step(PadState { frame_keys: s2.frame_keys + k1.push((BTN_TOUCH, false)), ..s2 }, t).1;
            let f1 = fingers_after(s0.fingers, k0);
            let f2 = fingers_after(fingers_in(f1, tr), keys_since_frame(tr) + k1);
            let peak = most_fingers_in(max1(f1), f1, tr);
            let b = button_for_spec(if f2 > peak { f2 } else { peak });
            let held = if t >= t0 { t - t0 } else { 0 };
            last == if held <= TAP_TIMEOUT_US && !strayed_in(s0.cur, s0.cur, s0.move_threshold, tr)
                && !left_press_in(tr) {
                seq![Out::Press(b), Out::Release(b)]
            } else {
                Seq::<Out>::empty()
            }
        }),
{
    let touch = (BTN_TOUCH, true);
    let ks0 = k0.push(touch);
    let f1 = fingers_after(s0.fingers, k0);
    assert(ks0.drop_last() =~= k0);
    assert(fingers_after(s0.fingers, ks0) == f1);
    let st = PadState { fingers: f1, peak_fingers: s0.peak_fingers, frame_keys: seq![], ..s0 };
    lemma_pass_touch_free(st, k0, t0);
    let s1 = frame_step(PadState { frame_keys: ks0, ..s0 }, t0).0;
    assert(s1 == touch_step(touch_pass(st, k0, t0).0, touch, t0).0);
    assert(s1.touching && s1.start == Some(s1.cur) && !s1.moved && !s1.clicked_during_touch);
    assert(s1.cur == s0.cur && s1.move_threshold == s0.move_threshold && s1.fingers == f1);
    assert(s1.peak_fingers == max1(f1) && s1.touch_start_us == t0 && s1.frame_keys.len() == 0);
    lemma_touch_told(s1, tr);
    let s2 = pad_run(s1, tr).0;
    let pend = keys_since_frame(tr);
    let lift = (BTN_TOUCH, false);
    let ks = s2.frame_keys + k1.push(lift);
    assert(ks =~= (pend + k1).push(lift));
    assert(ks.drop_last() =~= pend + k1);
    let f2 = fingers_after(fingers_in(f1, tr), pend + k1);
    assert(fingers_after(s2.fingers, ks) == f2);
    let peak = most_fingers_in(max1(f1), f1, tr);
    let top = if f2 > peak {
        f2
    } else {
        peak
    };
    lemma_most_at_least(max1(f1), f1, tr);
    assert(max1(top) == top);
    let st2 = PadState { fingers: f2, peak_fingers: top, frame_keys: seq![], ..s2 };
    lemma_pass_plain(st2, pend + k1, t);
    assert(!pend.contains((BTN_LEFT, true))) by {
        if pend.contains((BTN_LEFT, true)) {
            let j = choose|j: int| 0 <= j < pend.len() && pend[j] == (BTN_LEFT, true);
            assert((pend + k1)[j] == pend[j]);
        }
    }
    let (_, o) = touch_step(st2, lift, t);
    assert(Seq::<Out>::empty() + o =~= o);
}

proof fn lemma_most_at_least(m: u32, f: u32, tr: Seq<PadInput>)
    ensures
        most_fingers_in(m, f, tr) >= m,
    decreases tr.len(),
{
    if tr.len() > 0 {
        lemma_most_at_least(m, f, tr.drop_last());
    }
}

pub struct Touchpad {
    move_threshold: i32,
    fingers: u32,
    peak_fingers: u32,
    touching: bool,
    touch_start_us: u64,
    start: Option<(i32, i32)>,
    cur: (i32, i32),
    moved: bool,
    clicked_during_touch: bool,
    physical: Option<u16>,
    frame_keys: Vec<(u16, bool)>,
}

impl View for Touchpad {
    type V = PadState;

    closed spec fn view(&self) -> PadState {
        PadState {
            move_threshold: self.move_threshold,
            fingers: self.fingers,
            peak_fingers: self.peak_fingers,
            touching: self.touching,
            touch_start_us: self.touch_start_us,
            start: self.start,
            cur: self.cur,
            moved: self.moved,
            clicked_during_touch: self.clicked_during_touch,
            physical: self.physical,
            frame_keys: self.frame_keys@,
        }
    }
}

/// The motion threshold for a pad of `units_per_mm` resolution (0 =
/// unknown) and `abs_range` units across: 2 mm, or a fiftieth of the range.
pub open spec fn threshold(units_per_mm: i32, abs_range: i32) -> i32 {
    if units_per_mm > 0 {
        (units_per_mm * 2) as i32
    } else if abs_range / 50 > 1 {
        (abs_range / 50) as i32
    } else {
        1
    }
}

impl Touchpad {
    /// `units_per_mm` comes from the pad's ABS resolution; 0 = unknown.
    pub fn new(units_per_mm: i32, abs_range: i32) -> (t: Self)
        requires
            units_per_mm <= i32::MAX / 2,
        ensures
            t@ == (PadState {
                move_threshold: threshold(units_per_mm, abs_range),
                fingers: 0,
                peak_fingers: 0,
                touching: false,
                touch_start_us: 0,
                start: None,
                cur: (0, 0),
                moved: false,
                clicked_during_touch: false,
                physical: None,
                frame_keys: seq![],
            }),
    {
        let move_threshold = if units_per_mm > 0 {
            units_per_mm * 2
        } else if abs_range / 50 > 1 {
            abs_range / 50
        } else {
            1
        };
        Touchpad {
            move_threshold,
            fingers: 0,
            peak_fingers: 0,
            touching: false,
            touch_start_us: 0,
            start: None,
            cur: (0, 0),
            moved: false,
            clicked_during_touch: false,
            physical: None,
            frame_keys: Vec::new(),
        }
    }

    /// One line for diagnostics.
    pub fn describe(&self) -> (s: String)
        ensures
            s@ == "tap-to-click and clickfinger synthesis on, motion threshold "@ + crate::num::dec_int(
                self@.move_threshold as int,
            ) + " units"@,
    {
        let mut s = String::from_str("tap-to-click and clickfinger synthesis on, motion threshold ");
        append_dec_i64(&mut s, self.move_threshold as i64);
        s.append(" units");
        s
    }

    pub open spec fn tool_key(code: u16) -> bool {
        code == BTN_TOUCH || code == BTN_TOOL_FINGER || code == BTN_TOOL_DOUBLETAP || code
            == BTN_TOOL_TRIPLETAP || code == BTN_TOOL_QUADTAP
    }

    pub fn is_tool_key(code: u16) -> (r: bool)
        ensures
            r == Self::tool_key(code),
    {
        code == BTN_TOUCH || code == BTN_TOOL_FINGER || code == BTN_TOOL_DOUBLETAP || code
            == BTN_TOOL_TRIPLETAP || code == BTN_TOOL_QUADTAP
    }

    /// A touchpad-related EV_KEY (tool/touch keys or BTN_LEFT..) inside a frame.
    pub fn key(&mut self, code: u16, pressed: bool)
        ensures
            final(self)@ == (PadState { frame_keys: old(self)@.frame_keys.push((code, pressed)), ..old(self)@ }),
    {
        self.frame_keys.push((code, pressed));
    }

    pub fn abs(&mut self, code: u16, value: i32)
        ensures
            final(self)@ == abs_step(old(self)@, code, value),
    {
        if code == ABS_X {
            self.cur.0 = value;
        } else if code == ABS_Y {
            self.cur.1 = value;
        } else {
            return;
        }
        if let Some((sx, sy)) = self.start {
            let dx = self.cur.0 as i64 - sx as i64;
            let dy = self.cur.1 as i64 - sy as i64;
            let ax = if dx < 0 { -dx } else { dx };
            let ay = if dy < 0 { -dy } else { dy };
            if ax > self.move_threshold as i64 || ay > self.move_threshold as i64 {
                self.moved = true;
            }
        }
    }

    /// End of frame (EV_SYN): returns the clicks to emit, in order.
    pub fn frame(&mut self, t_us: u64) -> (out: Vec<Out>)
        ensures
            (final(self)@, out@) == frame_step(old(self)@, t_us),
    {
        let mut keys: Vec<(u16, bool)> = Vec::new();
        std::mem::swap(&mut keys, &mut self.frame_keys);
        let ghost s0 = self@;
        let mut i: usize = 0;
        while i < keys.len()
            invariant
                i <= keys@.len(),
                self@ == (PadState { fingers: self@.fingers, ..s0 }),
                self.fingers == fingers_after(s0.fingers, keys@.take(i as int)),
            decreases keys.len() - i,
        {
            let (code, pressed) = keys[i];
            proof {
                assert(keys@.take(i as int + 1).drop_last() =~= keys@.take(i as int));
            }
            let n: u32 = if code == BTN_TOOL_FINGER {
                1
            } else if code == BTN_TOOL_DOUBLETAP {
                2
            } else if code == BTN_TOOL_TRIPLETAP {
                3
            } else if code == BTN_TOOL_QUADTAP {
                4
            } else {
                0
            };
            if n > 0 {
                if pressed {
                    self.fingers = n;
                } else if self.fingers == n {
                    self.fingers = 0;
                }
            }
            i = i + 1;
        }
        assert(keys@.take(i as int) =~= keys@);
        if self.touching && self.fingers > self.peak_fingers {
            self.peak_fingers = self.fingers;
        }
        let ghost s1 = self@;
        let mut out: Vec<Out> = Vec::new();
        let mut j: usize = 0;
        while j < keys.len()
            invariant
                j <= keys@.len(),
                (self@, out@) == touch_pass(s1, keys@.take(j as int), t_us),
            decreases keys.len() - j,
        {
            let (code, pressed) = keys[j];
            proof {
                assert(keys@.take(j as int + 1).drop_last() =~= keys@.take(j as int));
            }
            let ghost before = out@;
            if code == BTN_TOUCH && pressed && !self.touching {
                self.touching = true;
                self.touch_start_us = t_us;
                self.peak_fingers = if self.fingers > 1 { self.fingers } else { 1 };
                self.start = Some(self.cur);
                self.moved = false;
                self.clicked_during_touch = false;
            } else if code == BTN_TOUCH && !pressed && self.touching {
                self.touching = false;
                let held_us = if t_us >= self.touch_start_us {
                    t_us - self.touch_start_us
                } else {
                    0
                };
                if held_us <= TAP_TIMEOUT_US && !self.moved && !self.clicked_during_touch {
                    let b = button_for(if self.peak_fingers > 1 { self.peak_fingers } else { 1 });
                    out.push(Out::Press(b));
                    out.push(Out::Release(b));
                }
                self.start = None;
            } else if code == BTN_LEFT && pressed {
                self.clicked_during_touch = true;
                let b = button_for(if self.fingers > 1 { self.fingers } else { 1 });
                self.physical = Some(b);
                out.push(Out::Press(b));
            } else if code == BTN_LEFT && !pressed {
                if let Some(b) = self.physical {
                    self.physical = None;
                    out.push(Out::Release(b));
                }
            }
            proof {
                let (_, o2) = touch_step(touch_pass(s1, keys@.take(j as int), t_us).0, (code, pressed), t_us);
                assert(out@ =~= before + o2);
            }
            j = j + 1;
        }
        assert(keys@.take(j as int) =~= keys@);
        out
    }
}

} // verus!
