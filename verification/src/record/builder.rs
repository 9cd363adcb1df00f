//! Turns timestamped raw input into macro events: coalesces motion, drops
//! the stop key, releases whatever is still held at the end.  Shared by all
//! platform recorders.

use super::Options;
use crate::format::{Event, EventType, Header, Macro};
use vstd::prelude::*;

verus! {

/// What a [`Builder`] holds.
pub ghost struct BuilderState {
    pub events: Seq<Event>,
    pub last_emit_us: u64,
    pub start_us: Option<u64>,
    pub min_move_interval_us: u64,
    pub stop_key: Option<u16>,
    /// First stamp and summed deltas of relative motion not yet emitted.
    pub pending_rel: Option<(u64, i32, i32)>,
    /// First stamp, last stamp and position of absolute motion not yet emitted.
    pub pending_abs: Option<(u64, u64, i32, i32)>,
    /// The position of the last absolute move emitted.
    pub last_abs: Option<(i32, i32)>,
}

/// The clock's start once an event stamped `now` has been seen.
pub open spec fn start_of(st: BuilderState, now: u64) -> u64 {
    match st.start_us {
        Some(s) => s,
        None => now,
    }
}

/// The pause before an event stamped `now`: since the first stamp for the
/// first event, else since the last event; never negative, at most
/// `u32::MAX`.
pub open spec fn delay(st: BuilderState, now: u64) -> u32 {
    let base = if st.events.len() == 0 {
        start_of(st, now)
    } else {
        st.last_emit_us
    };
    let d = if now >= base {
        now - base
    } else {
        0
    };
    if d > u32::MAX {
        u32::MAX
    } else {
        d as u32
    }
}

/// `st` once an event stamped `now` was emitted: the clock has started and
/// the last emission is `now`.
pub open spec fn stamp(st: BuilderState, now: u64) -> BuilderState {
    BuilderState { start_us: Some(start_of(st, now)), last_emit_us: now, ..st }
}

/// `st` with the event `e`, stamped `now`, emitted.
pub open spec fn emit_at(st: BuilderState, now: u64, e: Event) -> BuilderState {
    BuilderState { events: st.events.push(e), ..stamp(st, now) }
}

pub open spec fn event(kind: EventType, code: u16, x: i32, y: i32, d: u32) -> Event {
    Event { kind, code, x, y, delay_us: d }
}

/// Emit the pending relative motion, unless it sums to nothing.
pub open spec fn flush_rel(st: BuilderState) -> BuilderState {
    match st.pending_rel {
        Some((t, dx, dy)) => {
            let s = BuilderState { pending_rel: None, ..st };
            if dx != 0 || dy != 0 {
                emit_at(s, t, event(EventType::MoveRel, 0, dx, dy, delay(s, t)))
            } else {
                s
            }
        },
        None => st,
    }
}

/// Emit the pending absolute position, unless it is where the last one was.
pub open spec fn flush_abs(st: BuilderState) -> BuilderState {
    match st.pending_abs {
        Some((_, last, x, y)) => {
            let s = BuilderState { pending_abs: None, ..st };
            if st.last_abs != Some((x, y)) {
                let s2 = emit_at(s, last, event(EventType::MoveAbs, 0, x, y, delay(s, last)));
                BuilderState { last_abs: Some((x, y)), ..s2 }
            } else {
                s
            }
        },
        None => st,
    }
}

/// Emit all pending motion.
pub open spec fn flushed(st: BuilderState) -> BuilderState {
    flush_abs(flush_rel(st))
}

/// At least `min` has passed from `t` to `now`.
pub open spec fn due(t: u64, now: u64, min: u64) -> bool {
    (if now >= t {
        now - t
    } else {
        0
    }) >= min
}

/// The state before relative motion stamped `now` is added: pending motion
/// that is due has been emitted.
pub open spec fn before_motion(st: BuilderState, now: u64) -> BuilderState {
    match st.pending_rel {
        Some((t, _, _)) => if due(t, now, st.min_move_interval_us) {
            flushed(st)
        } else {
            st
        },
        None => st,
    }
}

/// Relative motion `dx, dy` at `now` can be summed without overflow.
pub open spec fn motion_fits(st: BuilderState, now: u64, dx: i32, dy: i32) -> bool {
    match before_motion(st, now).pending_rel {
        Some((_, x, y)) => i32::MIN <= x + dx <= i32::MAX && i32::MIN <= y + dy <= i32::MAX,
        None => true,
    }
}

/// `motion`: relative motion joins the pending sum.
pub open spec fn motion_step(st: BuilderState, now: u64, dx: i32, dy: i32) -> BuilderState {
    let s = before_motion(st, now);
    match s.pending_rel {
        Some((t, x, y)) => BuilderState { pending_rel: Some((t, (x + dx) as i32, (y + dy) as i32)), ..s },
        None => BuilderState { pending_rel: Some((now, dx, dy)), ..s },
    }
}

/// `move_abs`: the pending position becomes `x, y`.
pub open spec fn move_abs_step(st: BuilderState, now: u64, x: i32, y: i32) -> BuilderState {
    let s = match st.pending_abs {
        Some((first, _, _, _)) => if due(first, now, st.min_move_interval_us) {
            flushed(st)
        } else {
            st
        },
        None => st,
    };
    match s.pending_abs {
        Some((first, _, _, _)) => BuilderState { pending_abs: Some((first, now, x, y)), ..s },
        None => BuilderState { pending_abs: Some((now, now, x, y)), ..s },
    }
}

/// Emit pending motion, then an event of `kind` stamped `now`.
pub open spec fn input_step(st: BuilderState, now: u64, kind: EventType, code: u16, x: i32, y: i32) -> BuilderState {
    let s = flushed(st);
    emit_at(s, now, event(kind, code, x, y, delay(s, now)))
}

/// `key`: the stop key ends the recording (on press) and is not recorded.
pub open spec fn key_step(st: BuilderState, now: u64, code: u16, pressed: bool) -> (BuilderState, bool) {
    if st.stop_key == Some(code) {
        (st, pressed)
    } else {
        (
            input_step(
                st,
                now,
                if pressed {
                    EventType::KeyPress
                } else {
                    EventType::KeyRelease
                },
                code,
                0,
                0,
            ),
            false,
        )
    }
}

// ---- releasing what is held ----------------------------------------------

/// What is held after `e` when `h` was held before: a press adds its key or
/// button unless already held, a release drops it.
pub open spec fn hold_step(h: Seq<(EventType, u16)>, e: Event) -> Seq<(EventType, u16)> {
    match e.kind {
        EventType::KeyPress | EventType::ButtonPress => if h.contains((e.kind, e.code)) {
            h
        } else {
            h.push((e.kind, e.code))
        },
        EventType::KeyRelease => h.filter(|p: (EventType, u16)| !(p.0 == EventType::KeyPress && p.1 == e.code)),
        EventType::ButtonRelease => h.filter(
            |p: (EventType, u16)| !(p.0 == EventType::ButtonPress && p.1 == e.code),
        ),
        _ => h,
    }
}

/// What is held after `es` when `h` was held before.
pub open spec fn held_from(h: Seq<(EventType, u16)>, es: Seq<Event>) -> Seq<(EventType, u16)>
    decreases es.len(),
{
    if es.len() == 0 {
        h
    } else {
        hold_step(held_from(h, es.drop_last()), es.last())
    }
}

/// The keys and buttons held after `es`, in the order they were first
/// pressed, each once.
pub open spec fn held_after(es: Seq<Event>) -> Seq<(EventType, u16)> {
    held_from(seq![], es)
}

/// The event that releases a held key or button.
pub open spec fn release_of(p: (EventType, u16)) -> Event {
    match p.0 {
        EventType::KeyPress => event(EventType::KeyRelease, p.1, 0, 0, 0),
        _ => event(EventType::ButtonRelease, p.1, 0, 0, 0),
    }
}

/// Releases for everything in `h`, the last pressed first.
pub open spec fn releases(h: Seq<(EventType, u16)>) -> Seq<Event>
    decreases h.len(),
{
    if h.len() == 0 {
        seq![]
    } else {
        seq![release_of(h.last())] + releases(h.drop_last())
    }
}

/// `es` followed by the releases of whatever it leaves held.
pub open spec fn released(es: Seq<Event>) -> Seq<Event> {
    es + releases(held_after(es))
}

/// Whether `held` has the pair `(kind, code)`.
fn holds(held: &Vec<(EventType, u16)>, kind: EventType, code: u16) -> (r: bool)
    ensures
        r == held@.contains((kind, code)),
{
    let mut i: usize = 0;
    while i < held.len()
        invariant
            i <= held@.len(),
            forall|j: int| 0 <= j < i ==> held@[j] != (kind, code),
        decreases held.len() - i,
    {
        if held[i].0 == kind && held[i].1 == code {
            assert(held@[i as int] == (kind, code));
            return true;
        }
        i = i + 1;
    }
    false
}

/// `held` without the pairs `(kind, code)`.
fn without(held: Vec<(EventType, u16)>, kind: EventType, code: u16) -> (r: Vec<(EventType, u16)>)
    ensures
        r@ == held@.filter(|p: (EventType, u16)| !(p.0 == kind && p.1 == code)),
{
    let ghost f = |p: (EventType, u16)| !(p.0 == kind && p.1 == code);
    let mut r: Vec<(EventType, u16)> = Vec::new();
    let mut i: usize = 0;
    while i < held.len()
        invariant
            i <= held@.len(),
            f == (|p: (EventType, u16)| !(p.0 == kind && p.1 == code)),
            r@ == held@.take(i as int).filter(f),
        decreases held.len() - i,
    {
        let p = held[i];
        proof {
            reveal(Seq::filter);
            assert(held@.take(i as int + 1).drop_last() =~= held@.take(i as int));
        }
        if !(p.0 == kind && p.1 == code) {
            r.push(p);
        }
        i = i + 1;
    }
    assert(held@.take(i as int) =~= held@);
    r
}

/// Make sure every key/button pressed during the recording is released at
/// the end, so a macro never leaves modifiers stuck.
pub fn release_all(m: Macro) -> (r: Macro)
    ensures
        r.header == m.header,
        r.events@ == released(m.events@),
{
    let ghost h0 = m.header;
    let ghost es0 = m.events@;
    let mut m = m;
    let mut held: Vec<(EventType, u16)> = Vec::new();
    let mut i: usize = 0;
    while i < m.events.len()
        invariant
            m.header == h0,
            m.events@ == es0,
            i <= m.events@.len(),
            held@ == held_after(m.events@.take(i as int)),
        decreases m.events.len() - i,
    {
        let e = m.events[i];
        proof {
            assert(m.events@.take(i as int + 1).drop_last() =~= m.events@.take(i as int));
            assert(held_after(m.events@.take(i as int + 1)) == hold_step(held@, e));
        }
        match e.kind {
            EventType::KeyPress | EventType::ButtonPress => {
                if !holds(&held, e.kind, e.code) {
                    held.push((e.kind, e.code));
                }
            },
            EventType::KeyRelease => {
                held = without(held, EventType::KeyPress, e.code);
            },
            EventType::ButtonRelease => {
                held = without(held, EventType::ButtonPress, e.code);
            },
            _ => {},
        }
        i = i + 1;
    }
    assert(m.events@.take(i as int) =~= m.events@);
    let ghost es = m.events@;
    let mut j: usize = held.len();
    assert(held@.take(j as int) =~= held@);
    while j > 0
        invariant
            m.header == h0,
            es == es0,
            j <= held@.len(),
            held@ == held_after(es),
            m.events@ + releases(held@.take(j as int)) == released(es),
        decreases j,
    {
        let (k, c) = held[j - 1];
        let ev = match k {
            EventType::KeyPress => Event::key(c, false, 0),
            _ => Event::button(c, false, 0),
        };
        proof {
            let t = held@.take(j as int);
            assert(t.last() == (k, c));
            assert(t.drop_last() =~= held@.take(j as int - 1));
            assert(ev == release_of((k, c)));
            assert(releases(t) == seq![ev] + releases(held@.take(j as int - 1)));
            assert(m.events@.push(ev) + releases(held@.take(j as int - 1)) =~= m.events@ + releases(t));
        }
        m.events.push(ev);
        j = j - 1;
    }
    assert(held@.take(0) =~= Seq::<(EventType, u16)>::empty());
    assert(m.events@ =~= m.events@ + releases(Seq::<(EventType, u16)>::empty()));
    m
}

// ---- laws of releasing -------------------------------------------------------

/// Only presses are held, each once.
pub open spec fn held_ok(h: Seq<(EventType, u16)>) -> bool {
    &&& h.no_duplicates()
    &&& forall|i: int| 0 <= i < h.len() ==> (#[trigger] h[i]).0 == EventType::KeyPress || h[i].0
        == EventType::ButtonPress
}

/// Holding after `a` then `b` is holding after `a + b`.
pub proof fn lemma_held_concat(h: Seq<(EventType, u16)>, a: Seq<Event>, b: Seq<Event>)
    ensures
        held_from(h, a + b) == held_from(held_from(h, a), b),
    decreases b.len(),
{
    if b.len() == 0 {
        assert(a + b =~= a);
    } else {
        lemma_held_concat(h, a, b.drop_last());
        assert((a + b).drop_last() =~= a + b.drop_last());
        assert((a + b).last() == b.last());
    }
}

/// A filter that keeps everything leaves the sequence as it is.
proof fn lemma_filter_all<A>(s: Seq<A>, f: spec_fn(A) -> bool)
    requires
        forall|i: int| 0 <= i < s.len() ==> f(#[trigger] s[i]),
    ensures
        s.filter(f) == s,
    decreases s.len(),
{
    reveal(Seq::filter);
    if s.len() > 0 {
        lemma_filter_all(s.drop_last(), f);
        assert(f(s[s.len() - 1]));
        assert(s.drop_last().push(s.last()) =~= s);
    }
}

/// Filtering keeps only presses, each once.
proof fn lemma_filter_held_ok(h: Seq<(EventType, u16)>, f: spec_fn((EventType, u16)) -> bool)
    requires
        held_ok(h),
    ensures
        held_ok(h.filter(f)),
    decreases h.len(),
{
    reveal(Seq::filter);
    if h.len() > 0 {
        let a = h.drop_last();
        assert(held_ok(a)) by {
            assert forall|i: int| 0 <= i < a.len() implies (#[trigger] a[i]).0 == EventType::KeyPress
                || a[i].0 == EventType::ButtonPress by {
                assert(a[i] == h[i]);
            }
        }
        lemma_filter_held_ok(a, f);
        let fa = a.filter(f);
        if f(h.last()) {
            let r = fa.push(h.last());
            assert(!fa.contains(h.last())) by {
                if fa.contains(h.last()) {
                    a.lemma_filter_contains_rev(f, h.last());
                    let j = choose|j: int| 0 <= j < a.len() && a[j] == h.last();
                    assert(h[j] == h[h.len() - 1]);
                }
            }
            assert forall|i: int, j: int| 0 <= i < r.len() && 0 <= j < r.len() && i != j implies r[i]
                != r[j] by {
                if i < fa.len() && j < fa.len() {
                } else if i == fa.len() {
                    assert(fa.contains(r[j]));
                } else {
                    assert(fa.contains(r[i]));
                }
            }
            assert forall|i: int| 0 <= i < r.len() implies (#[trigger] r[i]).0 == EventType::KeyPress
                || r[i].0 == EventType::ButtonPress by {
                if i < fa.len() {
                    assert(r[i] == fa[i]);
                }
            }
        }
    }
}

/// Each step keeps only presses, each once.
proof fn lemma_hold_step_ok(h: Seq<(EventType, u16)>, e: Event)
    requires
        held_ok(h),
    ensures
        held_ok(hold_step(h, e)),
{
    match e.kind {
        EventType::KeyPress | EventType::ButtonPress => {
            if !h.contains((e.kind, e.code)) {
                let h2 = h.push((e.kind, e.code));
                assert forall|i: int, j: int| 0 <= i < h2.len() && 0 <= j < h2.len() && i != j implies h2[i]
                    != h2[j] by {
                    if i < h.len() && j < h.len() {
                    } else if i == h.len() {
                        assert(h.contains(h2[j]));
                    } else {
                        assert(h.contains(h2[i]));
                    }
                }
                assert forall|i: int| 0 <= i < h2.len() implies (#[trigger] h2[i]).0
                    == EventType::KeyPress || h2[i].0 == EventType::ButtonPress by {
                    if i < h.len() {
                        assert(h2[i] == h[i]);
                    }
                }
            }
        },
        EventType::KeyRelease => {
            let f = |p: (EventType, u16)| !(p.0 == EventType::KeyPress && p.1 == e.code);
            lemma_filter_held_ok(h, f);
        },
        EventType::ButtonRelease => {
            let f = |p: (EventType, u16)| !(p.0 == EventType::ButtonPress && p.1 == e.code);
            lemma_filter_held_ok(h, f);
        },
        _ => {},
    }
}

/// What any events leave held is only presses, each once.
pub proof fn lemma_held_ok(es: Seq<Event>)
    ensures
        held_ok(held_after(es)),
    decreases es.len(),
{
    if es.len() > 0 {
        lemma_held_ok(es.drop_last());
        lemma_hold_step_ok(held_after(es.drop_last()), es.last());
    }
}

/// Releasing the last held key or button leaves the others held.
proof fn lemma_release_last(h: Seq<(EventType, u16)>)
    requires
        held_ok(h),
        h.len() > 0,
    ensures
        hold_step(h, release_of(h.last())) == h.drop_last(),
{
    let (k, c) = h.last();
    let f = |p: (EventType, u16)| !(p.0 == k && p.1 == c);
    assert(h =~= h.drop_last() + seq![h.last()]);
    Seq::filter_distributes_over_add(h.drop_last(), seq![h.last()], f);
    assert forall|i: int| 0 <= i < h.drop_last().len() implies f(#[trigger] h.drop_last()[i]) by {
        assert(h[i] != h[h.len() - 1]);
    }
    lemma_filter_all(h.drop_last(), f);
    reveal(Seq::filter);
    assert(seq![h.last()].filter(f) =~= Seq::<(EventType, u16)>::empty());
    assert(h.filter(f) =~= h.drop_last());
}

/// Releasing everything held, the last pressed first, leaves nothing held.
proof fn lemma_releases_empty(h: Seq<(EventType, u16)>)
    requires
        held_ok(h),
    ensures
        held_from(h, releases(h)) == Seq::<(EventType, u16)>::empty(),
    decreases h.len(),
{
    if h.len() > 0 {
        let r = release_of(h.last());
        lemma_held_concat(h, seq![r], releases(h.drop_last()));
        assert(seq![r].drop_last() =~= Seq::<Event>::empty());
        assert(seq![r].last() == r);
        assert(held_from(h, seq![r].drop_last()) == h);
        assert(held_from(h, seq![r]) == hold_step(h, r));
        lemma_release_last(h);
        assert(held_ok(h.drop_last())) by {
            assert forall|i: int| 0 <= i < h.drop_last().len() implies (#[trigger] h.drop_last()[i]).0
                == EventType::KeyPress || h.drop_last()[i].0 == EventType::ButtonPress by {
                assert(h.drop_last()[i] == h[i]);
            }
        }
        lemma_releases_empty(h.drop_last());
    }
}

/// A finished macro never leaves a key or button held: after the events
/// `release_all` returns, nothing is pressed.
pub proof fn law_release_all_leaves_nothing_held(es: Seq<Event>)
    ensures
        held_after(released(es)) == Seq::<(EventType, u16)>::empty(),
{
    lemma_held_ok(es);
    lemma_held_concat(seq![], es, releases(held_after(es)));
    lemma_releases_empty(held_after(es));
}

// ---- laws of the stop key ------------------------------------------------------

/// No key event of `es` is the key `k`.
pub open spec fn stop_free(es: Seq<Event>, k: Option<u16>) -> bool {
    forall|i: int|
        0 <= i < es.len() ==> ((#[trigger] es[i]).kind == EventType::KeyPress || es[i].kind
            == EventType::KeyRelease) ==> Some(es[i].code) != k
}

proof fn lemma_push_free(es: Seq<Event>, e: Event, k: Option<u16>)
    requires
        stop_free(es, k),
        (e.kind == EventType::KeyPress || e.kind == EventType::KeyRelease) ==> Some(e.code) != k,
    ensures
        stop_free(es.push(e), k),
{
    assert forall|i: int|
        0 <= i < es.push(e).len() && ((#[trigger] es.push(e)[i]).kind == EventType::KeyPress
            || es.push(e)[i].kind == EventType::KeyRelease) implies Some(es.push(e)[i].code) != k by {
        if i < es.len() {
            assert(es.push(e)[i] == es[i]);
        }
    }
}

/// Emitting pending motion adds no key event and keeps the stop key.
proof fn lemma_flushed_free(st: BuilderState)
    requires
        stop_free(st.events, st.stop_key),
    ensures
        stop_free(flushed(st).events, st.stop_key),
        flushed(st).stop_key == st.stop_key,
        flushed(st).min_move_interval_us == st.min_move_interval_us,
{
    let s1 = flush_rel(st);
    if let Some((t, dx, dy)) = st.pending_rel {
        let s = BuilderState { pending_rel: None, ..st };
        lemma_push_free(s.events, event(EventType::MoveRel, 0, dx, dy, delay(s, t)), st.stop_key);
    }
    if let Some((_, last, x, y)) = s1.pending_abs {
        let s = BuilderState { pending_abs: None, ..s1 };
        lemma_push_free(s.events, event(EventType::MoveAbs, 0, x, y, delay(s, last)), st.stop_key);
    }
}

/// Some event of `es` has the kind and code of `p`.
pub open spec fn occurs(es: Seq<Event>, p: (EventType, u16)) -> bool {
    exists|i: int| 0 <= i < es.len() && (#[trigger] es[i]).kind == p.0 && es[i].code == p.1
}

/// Which keys and buttons are held comes from the presses among the events.
proof fn lemma_held_from_events(es: Seq<Event>)
    ensures
        forall|j: int| 0 <= j < held_after(es).len() ==> occurs(es, #[trigger] held_after(es)[j]),
    decreases es.len(),
{
    if es.len() > 0 {
        let a = es.drop_last();
        lemma_held_from_events(a);
        let h = held_after(a);
        let e = es.last();
        let h2 = held_after(es);
        assert(h2 == hold_step(h, e));
        assert forall|j: int| 0 <= j < h2.len() implies occurs(es, #[trigger] h2[j]) by {
            if h.contains(h2[j]) {
                let k = choose|k: int| 0 <= k < h.len() && h[k] == h2[j];
                assert(occurs(a, h[k]));
                let i = choose|i: int| 0 <= i < a.len() && (#[trigger] a[i]).kind == h[k].0 && a[i].code == h[k].1;
                assert(es[i] == a[i]);
            } else {
                match e.kind {
                    EventType::KeyPress | EventType::ButtonPress => {
                        if !h.contains((e.kind, e.code)) {
                            assert(h2[j] == (e.kind, e.code)) by {
                                if j < h.len() {
                                    assert(h.contains(h2[j]));
                                }
                            }
                            assert(es[es.len() - 1] == e);
                        } else {
                            assert(h.contains(h2[j]));
                        }
                    },
                    EventType::KeyRelease => {
                        let f = |p: (EventType, u16)| !(p.0 == EventType::KeyPress && p.1 == e.code);
                        assert(h.filter(f).contains(h2[j]));
                        h.lemma_filter_contains_rev(f, h2[j]);
                    },
                    EventType::ButtonRelease => {
                        let f = |p: (EventType, u16)| !(p.0 == EventType::ButtonPress && p.1 == e.code);
                        assert(h.filter(f).contains(h2[j]));
                        h.lemma_filter_contains_rev(f, h2[j]);
                    },
                    _ => {
                        assert(h.contains(h2[j]));
                    },
                }
            }
        }
    }
}

/// The releases of what `h` holds.
proof fn lemma_releases_index(h: Seq<(EventType, u16)>, i: int)
    requires
        0 <= i < h.len(),
    ensures
        releases(h).len() == h.len(),
        releases(h)[i] == release_of(h[h.len() - 1 - i]),
    decreases h.len(),
{
    lemma_releases_len(h);
    if i > 0 {
        lemma_releases_index(h.drop_last(), i - 1);
        assert(releases(h)[i] == releases(h.drop_last())[i - 1]);
    }
}

proof fn lemma_releases_len(h: Seq<(EventType, u16)>)
    ensures
        releases(h).len() == h.len(),
    decreases h.len(),
{
    if h.len() > 0 {
        lemma_releases_len(h.drop_last());
    }
}

/// Releasing what is held adds no release of the stop key when the stop key
/// was never pressed.
proof fn lemma_released_free(es: Seq<Event>, k: Option<u16>)
    requires
        stop_free(es, k),
    ensures
        stop_free(released(es), k),
{
    let h = held_after(es);
    let rs = releases(h);
    lemma_held_from_events(es);
    lemma_releases_len(h);
    assert forall|i: int|
        0 <= i < released(es).len() && ((#[trigger] released(es)[i]).kind == EventType::KeyPress
            || released(es)[i].kind == EventType::KeyRelease) implies Some(released(es)[i].code)
        != k by {
        if i < es.len() {
            assert(released(es)[i] == es[i]);
        } else {
            let r = i - es.len();
            lemma_releases_index(h, r);
            assert(released(es)[i] == rs[r]);
            let j = h.len() - 1 - r;
            assert(occurs(es, h[j]));
            let w = choose|w: int| 0 <= w < es.len() && (#[trigger] es[w]).kind == h[j].0 && es[w].code == h[j].1;
            assert(es[w].kind == h[j].0);
        }
    }
}

/// The stop key is never recorded: when no recorded event is the stop key,
/// none is after any builder operation, nor in what `finish` returns; no
/// operation changes the stop key.
pub proof fn law_stop_key_never_recorded(
    st: BuilderState,
    now: u64,
    code: u16,
    pressed: bool,
    x: i32,
    y: i32,
    kind: EventType,
)
    requires
        stop_free(st.events, st.stop_key),
        kind != EventType::KeyPress && kind != EventType::KeyRelease,
    ensures
        key_step(st, now, code, pressed).0.stop_key == st.stop_key,
        stop_free(key_step(st, now, code, pressed).0.events, st.stop_key),
        input_step(st, now, kind, code, x, y).stop_key == st.stop_key,
        stop_free(input_step(st, now, kind, code, x, y).events, st.stop_key),
        motion_step(st, now, x, y).stop_key == st.stop_key,
        stop_free(motion_step(st, now, x, y).events, st.stop_key),
        move_abs_step(st, now, x, y).stop_key == st.stop_key,
        stop_free(move_abs_step(st, now, x, y).events, st.stop_key),
        stop_free(released(flushed(st).events), st.stop_key),
{
    lemma_flushed_free(st);
    let f = flushed(st);
    lemma_push_free(f.events, event(kind, code, x, y, delay(f, now)), st.stop_key);
    if st.stop_key != Some(code) {
        let k = if pressed {
            EventType::KeyPress
        } else {
            EventType::KeyRelease
        };
        lemma_push_free(f.events, event(k, code, 0, 0, delay(f, now)), st.stop_key);
    }
    lemma_released_free(f.events, st.stop_key);
}

// ---- laws of motion ----------------------------------------------------------------

/// The summed `x` of the relative moves among `es`.
pub open spec fn rel_dx(es: Seq<Event>) -> int
    decreases es.len(),
{
    if es.len() == 0 {
        0
    } else if es.last().kind == EventType::MoveRel {
        rel_dx(es.drop_last()) + es.last().x
    } else {
        rel_dx(es.drop_last())
    }
}

/// The summed `y` of the relative moves among `es`.
pub open spec fn rel_dy(es: Seq<Event>) -> int
    decreases es.len(),
{
    if es.len() == 0 {
        0
    } else if es.last().kind == EventType::MoveRel {
        rel_dy(es.drop_last()) + es.last().y
    } else {
        rel_dy(es.drop_last())
    }
}

/// The relative motion of the recording `finish` would return from `st`.
pub open spec fn recorded_dx(st: BuilderState) -> int {
    rel_dx(released(flushed(st).events))
}

/// The relative motion of the recording `finish` would return from `st`.
pub open spec fn recorded_dy(st: BuilderState) -> int {
    rel_dy(released(flushed(st).events))
}

/// Relative motion taken in and not yet emitted.
pub open spec fn pending_dx(st: BuilderState) -> int {
    match st.pending_rel {
        Some((_, x, _)) => x as int,
        None => 0,
    }
}

/// Relative motion taken in and not yet emitted.
pub open spec fn pending_dy(st: BuilderState) -> int {
    match st.pending_rel {
        Some((_, _, y)) => y as int,
        None => 0,
    }
}

proof fn lemma_rel_concat(a: Seq<Event>, b: Seq<Event>)
    ensures
        rel_dx(a + b) == rel_dx(a) + rel_dx(b),
        rel_dy(a + b) == rel_dy(a) + rel_dy(b),
    decreases b.len(),
{
    if b.len() > 0 {
        lemma_rel_concat(a, b.drop_last());
        assert((a + b).drop_last() =~= a + b.drop_last());
        assert((a + b).last() == b.last());
    } else {
        assert(a + b =~= a);
    }
}

/// Releases carry no motion.
proof fn lemma_releases_still(h: Seq<(EventType, u16)>)
    ensures
        rel_dx(releases(h)) == 0,
        rel_dy(releases(h)) == 0,
    decreases h.len(),
{
    if h.len() > 0 {
        let r = seq![release_of(h.last())];
        lemma_releases_still(h.drop_last());
        lemma_rel_concat(r, releases(h.drop_last()));
        assert(r.drop_last() =~= Seq::<Event>::empty());
        assert(rel_dx(Seq::<Event>::empty()) == 0 && rel_dy(Seq::<Event>::empty()) == 0);
        assert(r.len() == 1);
        assert(r.last() == release_of(h.last()));
        assert(r.last().kind != EventType::MoveRel);
        assert(rel_dx(r) == rel_dx(r.drop_last()));
        assert(rel_dy(r) == rel_dy(r.drop_last()));
        assert(releases(h) == r + releases(h.drop_last()));
    }
}

proof fn lemma_released_sums(es: Seq<Event>)
    ensures
        rel_dx(released(es)) == rel_dx(es),
        rel_dy(released(es)) == rel_dy(es),
{
    lemma_rel_concat(es, releases(held_after(es)));
    lemma_releases_still(held_after(es));
}

/// Emitting pending motion moves the pending sum into the events, and
/// leaves nothing pending.
proof fn lemma_flushed_sums(st: BuilderState)
    ensures
        rel_dx(flushed(st).events) == rel_dx(st.events) + pending_dx(st),
        rel_dy(flushed(st).events) == rel_dy(st.events) + pending_dy(st),
        flushed(st).pending_rel is None,
        flushed(st).pending_abs is None,
        flushed(st).min_move_interval_us == st.min_move_interval_us,
{
    let s1 = flush_rel(st);
    if let Some((t, dx, dy)) = st.pending_rel {
        let s = BuilderState { pending_rel: None, ..st };
        if dx != 0 || dy != 0 {
            let e = event(EventType::MoveRel, 0, dx, dy, delay(s, t));
            assert(s1.events == st.events.push(e));
            assert(s1.events.drop_last() =~= st.events);
            assert(s1.events.last() == e);
            assert(rel_dx(s1.events) == rel_dx(st.events) + dx);
            assert(rel_dy(s1.events) == rel_dy(st.events) + dy);
        } else {
            assert(s1.events == st.events);
        }
    } else {
        assert(s1 == st);
    }
    let f = flushed(st);
    if let Some((_, last, x, y)) = s1.pending_abs {
        let s = BuilderState { pending_abs: None, ..s1 };
        if s1.last_abs != Some((x, y)) {
            let e = event(EventType::MoveAbs, 0, x, y, delay(s, last));
            assert(f.events == s1.events.push(e));
            assert(f.events.drop_last() =~= s1.events);
            assert(rel_dx(f.events) == rel_dx(s1.events));
            assert(rel_dy(f.events) == rel_dy(s1.events));
        } else {
            assert(f.events == s1.events);
        }
    } else {
        assert(f == s1);
    }
}

/// The motion a recording from `st` holds: what was emitted and what is
/// pending.
proof fn lemma_recorded_sums(st: BuilderState)
    ensures
        recorded_dx(st) == rel_dx(st.events) + pending_dx(st),
        recorded_dy(st) == rel_dy(st.events) + pending_dy(st),
{
    lemma_flushed_sums(st);
    lemma_released_sums(flushed(st).events);
}

/// Coalescing neither loses nor invents relative motion: the relative moves
/// of the finished recording sum to what they did before a step, plus the
/// motion that `motion` takes in; `move_abs`, `button`, `key` and `scroll`
/// add none.
pub proof fn law_motion_sums_kept(
    st: BuilderState,
    now: u64,
    code: u16,
    pressed: bool,
    x: i32,
    y: i32,
    kind: EventType,
)
    requires
        kind != EventType::MoveRel,
    ensures
        motion_fits(st, now, x, y) ==> recorded_dx(motion_step(st, now, x, y)) == recorded_dx(st) + x
            && recorded_dy(motion_step(st, now, x, y)) == recorded_dy(st) + y,
        recorded_dx(move_abs_step(st, now, x, y)) == recorded_dx(st),
        recorded_dy(move_abs_step(st, now, x, y)) == recorded_dy(st),
        recorded_dx(input_step(st, now, kind, code, x, y)) == recorded_dx(st),
        recorded_dy(input_step(st, now, kind, code, x, y)) == recorded_dy(st),
        recorded_dx(key_step(st, now, code, pressed).0) == recorded_dx(st),
        recorded_dy(key_step(st, now, code, pressed).0) == recorded_dy(st),
{
    lemma_recorded_sums(st);
    lemma_flushed_sums(st);
    lemma_recorded_sums(motion_step(st, now, x, y));
    lemma_recorded_sums(move_abs_step(st, now, x, y));
    lemma_input_sums(st, now, kind, code, x, y);
    if st.stop_key != Some(code) {
        let k = if pressed {
            EventType::KeyPress
        } else {
            EventType::KeyRelease
        };
        lemma_input_sums(st, now, k, code, 0, 0);
    }
}

proof fn lemma_input_sums(st: BuilderState, now: u64, kind: EventType, code: u16, x: i32, y: i32)
    requires
        kind != EventType::MoveRel,
    ensures
        recorded_dx(input_step(st, now, kind, code, x, y)) == recorded_dx(st),
        recorded_dy(input_step(st, now, kind, code, x, y)) == recorded_dy(st),
{
    lemma_recorded_sums(st);
    lemma_flushed_sums(st);
    let f = flushed(st);
    let s = input_step(st, now, kind, code, x, y);
    lemma_recorded_sums(s);
    assert(s.events.drop_last() =~= f.events);
}

// ---- absolute positions ----------------------------------------------------------------

/// The position of the last absolute move among `es`.
pub open spec fn last_abs_in(es: Seq<Event>) -> Option<(i32, i32)>
    decreases es.len(),
{
    if es.len() == 0 {
        None
    } else if es.last().kind == EventType::MoveAbs {
        Some((es.last().x, es.last().y))
    } else {
        last_abs_in(es.drop_last())
    }
}

/// No absolute move among `es` goes to where the absolute move before it
/// went.
pub open spec fn no_repeated_abs(es: Seq<Event>) -> bool
    decreases es.len(),
{
    if es.len() == 0 {
        true
    } else {
        &&& no_repeated_abs(es.drop_last())
        &&& es.last().kind == EventType::MoveAbs ==> last_abs_in(es.drop_last()) != Some(
            (es.last().x, es.last().y),
        )
    }
}

/// The builder's record of absolute moves: none repeats the one before it,
/// and the last position it remembers is that of the last one emitted.
pub open spec fn abs_ok(st: BuilderState) -> bool {
    &&& no_repeated_abs(st.events)
    &&& st.last_abs == last_abs_in(st.events)
}

/// Emitting an event that is no absolute move keeps `abs_ok`.
proof fn lemma_emit_abs_ok(st: BuilderState, now: u64, e: Event)
    requires
        abs_ok(st),
        e.kind != EventType::MoveAbs,
    ensures
        abs_ok(emit_at(st, now, e)),
{
    let es = emit_at(st, now, e).events;
    assert(es.drop_last() =~= st.events);
    assert(es.last() == e);
}

proof fn lemma_flushed_abs_ok(st: BuilderState)
    requires
        abs_ok(st),
    ensures
        abs_ok(flushed(st)),
{
    let s1 = flush_rel(st);
    if let Some((t, dx, dy)) = st.pending_rel {
        let s = BuilderState { pending_rel: None, ..st };
        if dx != 0 || dy != 0 {
            lemma_emit_abs_ok(s, t, event(EventType::MoveRel, 0, dx, dy, delay(s, t)));
        }
    }
    if let Some((_, last, x, y)) = s1.pending_abs {
        let s = BuilderState { pending_abs: None, ..s1 };
        if s1.last_abs != Some((x, y)) {
            let e = event(EventType::MoveAbs, 0, x, y, delay(s, last));
            let es = flushed(st).events;
            assert(es == s1.events.push(e));
            assert(es.drop_last() =~= s1.events);
            assert(es.last() == e);
        }
    }
}

/// Releases hold no absolute move.
proof fn lemma_released_abs_ok(es: Seq<Event>, rs: Seq<Event>)
    requires
        no_repeated_abs(es),
        forall|i: int| 0 <= i < rs.len() ==> (#[trigger] rs[i]).kind != EventType::MoveAbs,
    ensures
        no_repeated_abs(es + rs),
    decreases rs.len(),
{
    if rs.len() > 0 {
        lemma_released_abs_ok(es, rs.drop_last());
        assert((es + rs).drop_last() =~= es + rs.drop_last());
        assert((es + rs).last() == rs[rs.len() - 1]);
    } else {
        assert(es + rs =~= es);
    }
}

/// A recording never holds an absolute move to where the last one went: a
/// fresh builder keeps its record of absolute moves in order, every
/// operation keeps it so, and the recording `finish` returns from such a
/// builder repeats no absolute position.
pub proof fn law_no_repeated_abs(
    st: BuilderState,
    now: u64,
    code: u16,
    pressed: bool,
    x: i32,
    y: i32,
    kind: EventType,
    min_move_interval_us: u32,
    stop_key: Option<u16>,
)
    requires
        abs_ok(st),
        kind != EventType::MoveAbs,
    ensures
        abs_ok(fresh(min_move_interval_us, stop_key)),
        abs_ok(motion_step(st, now, x, y)),
        abs_ok(move_abs_step(st, now, x, y)),
        abs_ok(input_step(st, now, kind, code, x, y)),
        abs_ok(key_step(st, now, code, pressed).0),
        no_repeated_abs(released(flushed(st).events)),
{
    lemma_flushed_abs_ok(st);
    let f = flushed(st);
    lemma_emit_abs_ok(f, now, event(kind, code, x, y, delay(f, now)));
    if st.stop_key != Some(code) {
        let k = if pressed {
            EventType::KeyPress
        } else {
            EventType::KeyRelease
        };
        lemma_emit_abs_ok(f, now, event(k, code, 0, 0, delay(f, now)));
    }
    let h = held_after(f.events);
    lemma_releases_len(h);
    assert forall|i: int| 0 <= i < releases(h).len() implies (#[trigger] releases(h)[i]).kind
        != EventType::MoveAbs by {
        lemma_releases_index(h, i);
    }
    lemma_released_abs_ok(f.events, releases(h));
}

/// Absolute motion is throttled from the first sample of a burst: while
/// the burst is younger than the interval, a new sample only replaces its
/// position and last stamp; once the interval has passed since its first
/// sample, the burst is emitted (its latest position, stamped at its last
/// sample, unless that is where the last absolute move went) and the new
/// sample starts the next burst.  So steady motion yields at least one
/// absolute move per interval.
pub proof fn law_abs_throttled(st: BuilderState, now: u64, x: i32, y: i32)
    requires
        st.pending_rel is None,
        st.pending_abs is Some,
    ensures
        ({
            let (first, last, px, py) = st.pending_abs.unwrap();
            let r = move_abs_step(st, now, x, y);
            if now >= first && now - first >= st.min_move_interval_us {
                &&& r.pending_abs == Some((now, now, x, y))
                &&& r.last_abs == Some((px, py))
                &&& r.events == if st.last_abs == Some((px, py)) {
                    st.events
                } else {
                    st.events.push(
                        Event {
                            kind: EventType::MoveAbs,
                            code: 0,
                            x: px,
                            y: py,
                            delay_us: delay(st, last),
                        },
                    )
                }
            } else if now >= first {
                &&& r.pending_abs == Some((first, now, x, y))
                &&& r.events == st.events
                &&& r.last_abs == st.last_abs
            } else {
                true
            }
        }),
{
}


/// A button, key or scroll call first emits the pending motion, then adds
/// exactly one event with the call's kind, code and coordinates, whose
/// pause is the time since the event before it (since the first stamp for
/// the very first event), clamped to `0..=u32::MAX`.
pub proof fn law_input_appends(st: BuilderState, now: u64, kind: EventType, code: u16, x: i32, y: i32)
    ensures
        ({
            let f = flushed(st);
            let r = input_step(st, now, kind, code, x, y);
            let base = if f.events.len() == 0 {
                match f.start_us {
                    Some(s) => s,
                    None => now,
                }
            } else {
                f.last_emit_us
            };
            let gap: int = if now >= base { now - base } else { 0 };
            &&& r.events.len() == f.events.len() + 1
            &&& r.events.take(f.events.len() as int) == f.events
            &&& r.events.last().kind == kind && r.events.last().code == code
            &&& r.events.last().x == x && r.events.last().y == y
            &&& r.events.last().delay_us == if gap > u32::MAX { u32::MAX as int } else { gap }
            &&& r.last_emit_us == now
            &&& r.pending_rel is None && r.pending_abs is None
        }),
{
    let f = flushed(st);
    lemma_flushed_sums(st);
    assert(input_step(st, now, kind, code, x, y).events.take(f.events.len() as int) =~= f.events);
}


// ---- a whole recording --------------------------------------------------------------

/// One call on a [`Builder`].
pub enum BuilderCall {
    Motion(u64, i32, i32),
    MoveAbs(u64, i32, i32),
    Button(u64, u16, bool),
    Key(u64, u16, bool),
    Scroll(u64, i32, i32),
}

/// The builder's state after the call `c`.
pub open spec fn call_step(st: BuilderState, c: BuilderCall) -> BuilderState {
    match c {
        BuilderCall::Motion(t, dx, dy) => motion_step(st, t, dx, dy),
        BuilderCall::MoveAbs(t, x, y) => move_abs_step(st, t, x, y),
        BuilderCall::Button(t, code, pressed) => input_step(
            st,
            t,
            if pressed {
                EventType::ButtonPress
            } else {
                EventType::ButtonRelease
            },
            code,
            0,
            0,
        ),
        BuilderCall::Key(t, code, pressed) => key_step(st, t, code, pressed).0,
        BuilderCall::Scroll(t, x, y) => input_step(st, t, EventType::Scroll, 0, x, y),
    }
}

/// The builder's state after the calls `cs`, in order.
pub open spec fn calls_run(st: BuilderState, cs: Seq<BuilderCall>) -> BuilderState
    decreases cs.len(),
{
    if cs.len() == 0 {
        st
    } else {
        call_step(calls_run(st, cs.drop_last()), cs.last())
    }
}

/// Every `motion` call among `cs` can be taken when it comes.
pub open spec fn calls_fit(st: BuilderState, cs: Seq<BuilderCall>) -> bool
    decreases cs.len(),
{
    if cs.len() == 0 {
        true
    } else {
        &&& calls_fit(st, cs.drop_last())
        &&& cs.last() matches BuilderCall::Motion(t, dx, dy) ==> motion_fits(calls_run(st, cs.drop_last()), t, dx, dy)
    }
}

/// The summed `dx` of the `motion` calls among `cs`.
pub open spec fn calls_dx(cs: Seq<BuilderCall>) -> int
    decreases cs.len(),
{
    if cs.len() == 0 {
        0
    } else {
        calls_dx(cs.drop_last()) + match cs.last() {
            BuilderCall::Motion(_, dx, _) => dx as int,
            _ => 0,
        }
    }
}

/// The summed `dy` of the `motion` calls among `cs`.
pub open spec fn calls_dy(cs: Seq<BuilderCall>) -> int
    decreases cs.len(),
{
    if cs.len() == 0 {
        0
    } else {
        calls_dy(cs.drop_last()) + match cs.last() {
            BuilderCall::Motion(_, _, dy) => dy as int,
            _ => 0,
        }
    }
}

proof fn lemma_call_step(st: BuilderState, c: BuilderCall)
    requires
        abs_ok(st),
        stop_free(st.events, st.stop_key),
        c matches BuilderCall::Motion(t, dx, dy) ==> motion_fits(st, t, dx, dy),
    ensures
        abs_ok(call_step(st, c)),
        call_step(st, c).stop_key == st.stop_key,
        stop_free(call_step(st, c).events, st.stop_key),
        recorded_dx(call_step(st, c)) == recorded_dx(st) + match c {
            BuilderCall::Motion(_, dx, _) => dx as int,
            _ => 0,
        },
        recorded_dy(call_step(st, c)) == recorded_dy(st) + match c {
            BuilderCall::Motion(_, _, dy) => dy as int,
            _ => 0,
        },
{
    match c {
        BuilderCall::Motion(t, dx, dy) => {
            law_stop_key_never_recorded(st, t, 0, false, dx, dy, EventType::Scroll);
            law_no_repeated_abs(st, t, 0, false, dx, dy, EventType::Scroll, 0, None);
            law_motion_sums_kept(st, t, 0, false, dx, dy, EventType::Scroll);
        },
        BuilderCall::MoveAbs(t, x, y) => {
            law_stop_key_never_recorded(st, t, 0, false, x, y, EventType::Scroll);
            law_no_repeated_abs(st, t, 0, false, x, y, EventType::Scroll, 0, None);
            law_motion_sums_kept(st, t, 0, false, x, y, EventType::Scroll);
        },
        BuilderCall::Button(t, code, pressed) => {
            let k = if pressed {
                EventType::ButtonPress
            } else {
                EventType::ButtonRelease
            };
            law_stop_key_never_recorded(st, t, code, pressed, 0, 0, k);
            law_no_repeated_abs(st, t, code, pressed, 0, 0, k, 0, None);
            law_motion_sums_kept(st, t, code, pressed, 0, 0, k);
        },
        BuilderCall::Key(t, code, pressed) => {
            law_stop_key_never_recorded(st, t, code, pressed, 0, 0, EventType::Scroll);
            law_no_repeated_abs(st, t, code, pressed, 0, 0, EventType::Scroll, 0, None);
            law_motion_sums_kept(st, t, code, pressed, 0, 0, EventType::Scroll);
        },
        BuilderCall::Scroll(t, x, y) => {
            law_stop_key_never_recorded(st, t, 0, false, x, y, EventType::Scroll);
            law_no_repeated_abs(st, t, 0, false, x, y, EventType::Scroll, 0, None);
            law_motion_sums_kept(st, t, 0, false, x, y, EventType::Scroll);
        },
    }
}

proof fn lemma_calls_run(st: BuilderState, cs: Seq<BuilderCall>)
    requires
        abs_ok(st),
        stop_free(st.events, st.stop_key),
        calls_fit(st, cs),
    ensures
        abs_ok(calls_run(st, cs)),
        calls_run(st, cs).stop_key == st.stop_key,
        stop_free(calls_run(st, cs).events, st.stop_key),
        recorded_dx(calls_run(st, cs)) == recorded_dx(st) + calls_dx(cs),
        recorded_dy(calls_run(st, cs)) == recorded_dy(st) + calls_dy(cs),
    decreases cs.len(),
{
    if cs.len() > 0 {
        lemma_calls_run(st, cs.drop_last());
        lemma_call_step(calls_run(st, cs.drop_last()), cs.last());
    }
}

/// A whole recording, from a new builder through any calls (each `motion`
/// taken only where its sum fits) to `finish`: the relative moves of the
/// recording sum to the motion the calls handed in, no absolute move goes
/// to where the one before it went, and the stop key is never recorded.
pub proof fn law_whole_recording(min_move_interval_us: u32, stop_key: Option<u16>, cs: Seq<BuilderCall>)
    requires
        calls_fit(fresh(min_move_interval_us, stop_key), cs),
    ensures
        ({
            let es = released(flushed(calls_run(fresh(min_move_interval_us, stop_key), cs)).events);
            &&& rel_dx(es) == calls_dx(cs)
            &&& rel_dy(es) == calls_dy(cs)
            &&& no_repeated_abs(es)
            &&& stop_free(es, stop_key)
        }),
{
    let f = fresh(min_move_interval_us, stop_key);
    law_no_repeated_abs(f, 0, 0, false, 0, 0, EventType::Scroll, min_move_interval_us, stop_key);
    assert(stop_free(f.events, stop_key));
    lemma_recorded_sums(f);
    assert(rel_dx(f.events) == 0 && rel_dy(f.events) == 0);
    lemma_calls_run(f, cs);
    let st = calls_run(f, cs);
    law_no_repeated_abs(st, 0, 0, false, 0, 0, EventType::Scroll, min_move_interval_us, stop_key);
    law_stop_key_never_recorded(st, 0, 0, false, 0, 0, EventType::Scroll);
}

// ---- the builder -----------------------------------------------------------

/// Turns a stream of timestamped raw events into macro events, coalescing
/// motion and handling the stop key.
pub struct Builder {
    events: Vec<Event>,
    last_emit_us: u64,
    start_us: Option<u64>,
    min_move_interval_us: u64,
    stop_key: Option<u16>,
    pending_rel: Option<(u64, i32, i32)>,
    pending_abs: Option<(u64, u64, i32, i32)>,
    last_abs: Option<(i32, i32)>,
}

impl View for Builder {
    type V = BuilderState;

    closed spec fn view(&self) -> BuilderState {
        BuilderState {
            events: self.events@,
            last_emit_us: self.last_emit_us,
            start_us: self.start_us,
            min_move_interval_us: self.min_move_interval_us,
            stop_key: self.stop_key,
            pending_rel: self.pending_rel,
            pending_abs: self.pending_abs,
            last_abs: self.last_abs,
        }
    }
}

/// A builder that has seen nothing yet.
pub open spec fn fresh(min_move_interval_us: u32, stop_key: Option<u16>) -> BuilderState {
    BuilderState {
        events: seq![],
        last_emit_us: 0,
        start_us: None,
        min_move_interval_us: min_move_interval_us as u64,
        stop_key,
        pending_rel: None,
        pending_abs: None,
        last_abs: None,
    }
}

impl Builder {
    pub fn new(opts: &Options) -> (b: Self)
        ensures
            b@ == fresh(opts.min_move_interval_us, opts.stop_key),
    {
        Builder {
            events: Vec::new(),
            last_emit_us: 0,
            start_us: None,
            min_move_interval_us: opts.min_move_interval_us as u64,
            stop_key: opts.stop_key,
            pending_rel: None,
            pending_abs: None,
            last_abs: None,
        }
    }

    fn delay_for(&mut self, now_us: u64) -> (d: u32)
        ensures
            d == delay(old(self)@, now_us),
            final(self)@ == stamp(old(self)@, now_us),
    {
        let start = match self.start_us {
            Some(s) => s,
            None => now_us,
        };
        self.start_us = Some(start);
        let base = if self.events.len() == 0 {
            start
        } else {
            self.last_emit_us
        };
        let d = if now_us >= base {
            now_us - base
        } else {
            0
        };
        self.last_emit_us = now_us;
        if d > u32::MAX as u64 {
            u32::MAX
        } else {
            d as u32
        }
    }

    fn emit(&mut self, now_us: u64, kind: EventType, code: u16, x: i32, y: i32)
        ensures
            final(self)@ == emit_at(old(self)@, now_us, event(kind, code, x, y, delay(old(self)@, now_us))),
    {
        let d = self.delay_for(now_us);
        self.events.push(Event { kind, code, x, y, delay_us: d });
    }

    fn flush_motion(&mut self)
        ensures
            final(self)@ == flushed(old(self)@),
    {
        let ghost s0 = self@;
        match self.pending_rel {
            Some((t, dx, dy)) => {
                self.pending_rel = None;
                if dx != 0 || dy != 0 {
                    self.emit(t, EventType::MoveRel, 0, dx, dy);
                }
            },
            None => {},
        }
        assert(self@ == flush_rel(s0));
        let ghost s1 = self@;
        match self.pending_abs {
            Some((_, last, x, y)) => {
                self.pending_abs = None;
                let same = match self.last_abs {
                    Some((px, py)) => px == x && py == y,
                    None => false,
                };
                if !same {
                    self.emit(last, EventType::MoveAbs, 0, x, y);
                    self.last_abs = Some((x, y));
                }
            },
            None => {},
        }
        assert(self@ == flush_abs(s1));
    }

    /// Whether `motion` can take `dx, dy` at `now_us`: the pending sum it
    /// joins stays within `i32`.
    pub fn motion_fits(&self, now_us: u64, dx: i32, dy: i32) -> (r: bool)
        ensures
            r == motion_fits(self@, now_us, dx, dy),
    {
        match self.pending_rel {
            Some((t, x, y)) => {
                let gap = if now_us >= t {
                    now_us - t
                } else {
                    0
                };
                if gap >= self.min_move_interval_us {
                    true
                } else {
                    let sx = x as i64 + dx as i64;
                    let sy = y as i64 + dy as i64;
                    i32::MIN as i64 <= sx && sx <= i32::MAX as i64 && i32::MIN as i64 <= sy && sy
                        <= i32::MAX as i64
                }
            },
            None => true,
        }
    }

    pub fn motion(&mut self, now_us: u64, dx: i32, dy: i32)
        requires
            motion_fits(old(self)@, now_us, dx, dy),
        ensures
            final(self)@ == motion_step(old(self)@, now_us, dx, dy),
    {
        if let Some((t, _, _)) = self.pending_rel {
            let gap = if now_us >= t {
                now_us - t
            } else {
                0
            };
            if gap >= self.min_move_interval_us {
                self.flush_motion();
            }
        }
        match self.pending_rel {
            Some((t, x, y)) => {
                self.pending_rel = Some((t, x + dx, y + dy));
            },
            None => {
                self.pending_rel = Some((now_us, dx, dy));
            },
        }
    }

    pub fn move_abs(&mut self, now_us: u64, x: i32, y: i32)
        ensures
            final(self)@ == move_abs_step(old(self)@, now_us, x, y),
    {
        if let Some((first, _, _, _)) = self.pending_abs {
            let gap = if now_us >= first {
                now_us - first
            } else {
                0
            };
            if gap >= self.min_move_interval_us {
                self.flush_motion();
            }
        }
        match self.pending_abs {
            Some((first, _, _, _)) => {
                self.pending_abs = Some((first, now_us, x, y));
            },
            None => {
                self.pending_abs = Some((now_us, now_us, x, y));
            },
        }
    }

    pub fn button(&mut self, now_us: u64, code: u16, pressed: bool)
        ensures
            final(self)@ == input_step(
                old(self)@,
                now_us,
                if pressed {
                    EventType::ButtonPress
                } else {
                    EventType::ButtonRelease
                },
                code,
                0,
                0,
            ),
    {
        self.flush_motion();
        let kind = if pressed {
            EventType::ButtonPress
        } else {
            EventType::ButtonRelease
        };
        self.emit(now_us, kind, code, 0, 0);
    }

    /// Returns true when this was the stop key (recording should end).
    pub fn key(&mut self, now_us: u64, code: u16, pressed: bool) -> (stop: bool)
        ensures
            (final(self)@, stop) == key_step(old(self)@, now_us, code, pressed),
    {
        if let Some(k) = self.stop_key {
            if k == code {
                return pressed;
            }
        }
        self.flush_motion();
        let kind = if pressed {
            EventType::KeyPress
        } else {
            EventType::KeyRelease
        };
        self.emit(now_us, kind, code, 0, 0);
        false
    }

    pub fn scroll(&mut self, now_us: u64, x: i32, y: i32)
        ensures
            final(self)@ == input_step(old(self)@, now_us, EventType::Scroll, 0, x, y),
    {
        self.flush_motion();
        self.emit(now_us, EventType::Scroll, 0, x, y);
    }

    /// Finish: flush motion, release anything still held, attach the header.
    pub fn finish(self, header: Header) -> (m: Macro)
        ensures
            m.header == header,
            m.events@ == released(flushed(self@).events),
    {
        let mut b = self;
        b.flush_motion();
        release_all(Macro { header, events: b.events })
    }
}

} // verus!
