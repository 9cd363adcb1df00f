//! The builder of the plain evdev recorder, which sees relative motion only
//! and leaves the stop key and releases to its caller.

use crate::format::{Event, EventType, Header, Macro};
use crate::record::builder::{due, event};
use vstd::prelude::*;

verus! {

/// What a [`Builder`] holds.
pub ghost struct BasicState {
    pub events: Seq<Event>,
    pub last_emit_us: u64,
    pub start_us: Option<u64>,
    pub min_move_interval_us: u64,
    pub pending_dx: i32,
    pub pending_dy: i32,
    /// When the pending motion began.
    pub pending_since_us: Option<u64>,
}

pub open spec fn start_of(st: BasicState, now: u64) -> u64 {
    match st.start_us {
        Some(s) => s,
        None => now,
    }
}

/// The pause before an event stamped `now`: since the first stamp for the
/// first event, else since the last event; never negative, at most
/// `u32::MAX`.
pub open spec fn delay(st: BasicState, now: u64) -> u32 {
    let base = if st.events.len() == 0 {
        start_of(st, now)
    } else {
        st.last_emit_us
    };
    let d = if now >= base {
        now - base
    } else {
        0
    };
    if d > u32::MAX {
        u32::MAX
    } else {
        d as u32
    }
}

/// `st` with `e`, stamped `now`, emitted.
pub open spec fn emit_at(st: BasicState, now: u64, e: Event) -> BasicState {
    BasicState { events: st.events.push(e), start_us: Some(start_of(st, now)), last_emit_us: now, ..st }
}

/// Emit the pending motion, unless it sums to nothing, and start afresh.
pub open spec fn flushed(st: BasicState) -> BasicState {
    match st.pending_since_us {
        Some(t) => {
            let s = if st.pending_dx != 0 || st.pending_dy != 0 {
                emit_at(
                    st,
                    t,
                    event(EventType::MoveRel, 0, st.pending_dx, st.pending_dy, delay(st, t)),
                )
            } else {
                st
            };
            BasicState { pending_since_us: None, pending_dx: 0, pending_dy: 0, ..s }
        },
        None => st,
    }
}

/// The state before motion stamped `now` is summed: due motion emitted and
/// the pending period started.
pub open spec fn before_motion(st: BasicState, now: u64) -> BasicState {
    match st.pending_since_us {
        Some(t) => if due(t, now, st.min_move_interval_us) {
            BasicState { pending_since_us: Some(now), ..flushed(st) }
        } else {
            st
        },
        None => BasicState { pending_since_us: Some(now), ..st },
    }
}

/// The motion can be summed without overflow.
pub open spec fn motion_fits(st: BasicState, now: u64, dx: i32, dy: i32) -> bool {
    let s = before_motion(st, now);
    i32::MIN <= s.pending_dx + dx <= i32::MAX && i32::MIN <= s.pending_dy + dy <= i32::MAX
}

/// `motion`: relative motion joins the pending sum.
pub open spec fn motion_step(st: BasicState, now: u64, dx: i32, dy: i32) -> BasicState {
    let s = before_motion(st, now);
    BasicState { pending_dx: (s.pending_dx + dx) as i32, pending_dy: (s.pending_dy + dy) as i32, ..s }
}

/// Emit pending motion, then an event of `kind` stamped `now`.
pub open spec fn input_step(st: BasicState, now: u64, kind: EventType, code: u16, x: i32, y: i32) -> BasicState {
    let s = flushed(st);
    emit_at(s, now, event(kind, code, x, y, delay(s, now)))
}

/// Turns a stream of timestamped raw events into macro events, coalescing
/// relative motion.
pub struct Builder {
    events: Vec<Event>,
    last_emit_us: u64,
    start_us: Option<u64>,
    min_move_interval_us: u64,
    pending_dx: i32,
    pending_dy: i32,
    pending_since_us: Option<u64>,
}

impl View for Builder {
    type V = BasicState;

    closed spec fn view(&self) -> BasicState {
        BasicState {
            events: self.events@,
            last_emit_us: self.last_emit_us,
            start_us: self.start_us,
            min_move_interval_us: self.min_move_interval_us,
            pending_dx: self.pending_dx,
            pending_dy: self.pending_dy,
            pending_since_us: self.pending_since_us,
        }
    }
}

impl Builder {
    pub fn new(min_move_interval_us: u32) -> (b: Self)
        ensures
            b@ == (BasicState {
                events: seq![],
                last_emit_us: 0,
                start_us: None,
                min_move_interval_us: min_move_interval_us as u64,
                pending_dx: 0,
                pending_dy: 0,
                pending_since_us: None,
            }),
    {
        Builder {
            events: Vec::new(),
            last_emit_us: 0,
            start_us: None,
            min_move_interval_us: min_move_interval_us as u64,
            pending_dx: 0,
            pending_dy: 0,
            pending_since_us: None,
        }
    }

    fn delay_for(&mut self, now_us: u64) -> (d: u32)
        ensures
            d == delay(old(self)@, now_us),
            final(self)@ == (BasicState {
                start_us: Some(start_of(old(self)@, now_us)),
                last_emit_us: now_us,
                ..old(self)@
            }),
    {
        let start = match self.start_us {
            Some(s) => s,
            None => now_us,
        };
        self.start_us = Some(start);
        let base = if self.events.len() == 0 {
            start
        } else {
            self.last_emit_us
        };
        let d = if now_us >= base {
            now_us - base
        } else {
            0
        };
        self.last_emit_us = now_us;
        if d > u32::MAX as u64 {
            u32::MAX
        } else {
            d as u32
        }
    }

    fn emit(&mut self, now_us: u64, kind: EventType, code: u16, x: i32, y: i32)
        ensures
            final(self)@ == emit_at(old(self)@, now_us, event(kind, code, x, y, delay(old(self)@, now_us))),
    {
        let d = self.delay_for(now_us);
        self.events.push(Event { kind, code, x, y, delay_us: d });
    }

    fn flush_motion(&mut self)
        ensures
            final(self)@ == flushed(old(self)@),
    {
        if let Some(t) = self.pending_since_us {
            if self.pending_dx != 0 || self.pending_dy != 0 {
                let (dx, dy) = (self.pending_dx, self.pending_dy);
                self.emit(t, EventType::MoveRel, 0, dx, dy);
            }
            self.pending_since_us = None;
            self.pending_dx = 0;
            self.pending_dy = 0;
        }
    }

    pub fn motion(&mut self, now_us: u64, dx: i32, dy: i32)
        requires
            motion_fits(old(self)@, now_us, dx, dy),
        ensures
            final(self)@ == motion_step(old(self)@, now_us, dx, dy),
    {
        match self.pending_since_us {
            Some(t) => {
                let gap = if now_us >= t {
                    now_us - t
                } else {
                    0
                };
                if gap >= self.min_move_interval_us {
                    self.flush_motion();
                    self.pending_since_us = Some(now_us);
                }
            },
            None => {
                self.pending_since_us = Some(now_us);
            },
        }
        self.pending_dx = self.pending_dx + dx;
        self.pending_dy = self.pending_dy + dy;
    }

    pub fn move_abs(&mut self, now_us: u64, x: i32, y: i32)
        ensures
            final(self)@ == input_step(old(self)@, now_us, EventType::MoveAbs, 0, x, y),
    {
        self.flush_motion();
        self.emit(now_us, EventType::MoveAbs, 0, x, y);
    }

    pub fn button(&mut self, now_us: u64, code: u16, pressed: bool)
        ensures
            final(self)@ == input_step(
                old(self)@,
                now_us,
                if pressed {
                    EventType::ButtonPress
                } else {
                    EventType::ButtonRelease
                },
                code,
                0,
                0,
            ),
    {
        self.flush_motion();
        let kind = if pressed {
            EventType::ButtonPress
        } else {
            EventType::ButtonRelease
        };
        self.emit(now_us, kind, code, 0, 0);
    }

    pub fn key(&mut self, now_us: u64, code: u16, pressed: bool)
        ensures
            final(self)@ == input_step(
                old(self)@,
                now_us,
                if pressed {
                    EventType::KeyPress
                } else {
                    EventType::KeyRelease
                },
                code,
                0,
                0,
            ),
    {
        self.flush_motion();
        let kind = if pressed {
            EventType::KeyPress
        } else {
            EventType::KeyRelease
        };
        self.emit(now_us, kind, code, 0, 0);
    }

    pub fn scroll(&mut self, now_us: u64, x: i32, y: i32)
        ensures
            final(self)@ == input_step(old(self)@, now_us, EventType::Scroll, 0, x, y),
    {
        self.flush_motion();
        self.emit(now_us, EventType::Scroll, 0, x, y);
    }

    pub fn finish(self, header: Header) -> (m: Macro)
        ensures
            m.header == header,
            m.events@ == flushed(self@).events,
    {
        let mut b = self;
        b.flush_motion();
        Macro { header, events: b.events }
    }
}

} // verus!
