//! The Wayland recorder's two timelines merged on CLOCK_MONOTONIC: absolute
//! cursor samples from a screen-cast stream, and raw evdev events.

use super::builder::{flushed, motion_fits, move_abs_step, released, BuilderState, Builder};
use super::evdev::{applied, apply, Raw, RawEvent};
use super::Options;
use crate::format::{default_header, Header, Macro};
use std::collections::VecDeque;
use vstd::prelude::*;

verus! {

/// One cursor position, stamped on CLOCK_MONOTONIC.
#[derive(Clone, Copy, Debug, PartialEq, Eq)]
pub struct Sample {
    pub t_us: u64,
    pub x: i32,
    pub y: i32,
}

/// `struct spa_meta_cursor`: the cursor metadata a screen-cast buffer carries.
#[derive(Clone, Copy, Debug, PartialEq, Eq)]
pub struct SpaMetaCursor {
    pub id: u32,
    pub flags: u32,
    pub x: i32,
    pub y: i32,
    pub hotspot_x: i32,
    pub hotspot_y: i32,
    pub bitmap_offset: u32,
}

/// The sample a cursor metadata block gives at `t_us`: its position, when it
/// carries a cursor at all (a non-zero id).
pub fn cursor_sample(c: &SpaMetaCursor, t_us: u64) -> (r: Option<Sample>)
    ensures
        r == (if c.id != 0 {
            Some(Sample { t_us, x: c.x, y: c.y })
        } else {
            None
        }),
{
    if c.id != 0 {
        Some(Sample { t_us, x: c.x, y: c.y })
    } else {
        None
    }
}

/// The builder after absolute moves to each of `ss`, in order.
pub open spec fn moved(b: BuilderState, ss: Seq<Sample>) -> BuilderState
    decreases ss.len(),
{
    if ss.len() == 0 {
        b
    } else {
        moved(move_abs_step(b, ss[0].t_us, ss[0].x, ss[0].y), ss.drop_first())
    }
}

/// How many samples at the front of `ss` are stamped no later than `t`.
pub open spec fn due_count(ss: Seq<Sample>, t: u64) -> nat
    decreases ss.len(),
{
    if ss.len() > 0 && ss[0].t_us <= t {
        1 + due_count(ss.drop_first(), t)
    } else {
        0
    }
}

proof fn lemma_due_count(ss: Seq<Sample>, t: u64, i: int)
    requires
        0 <= i <= ss.len(),
        forall|j: int| 0 <= j < i ==> #[trigger] ss[j].t_us <= t,
        i == ss.len() || ss[i].t_us > t,
    ensures
        due_count(ss, t) == i,
    decreases i,
{
    if i > 0 {
        let rest = ss.drop_first();
        assert forall|j: int| 0 <= j < i - 1 implies #[trigger] rest[j].t_us <= t by {
            assert(rest[j] == ss[j + 1]);
        }
        if i < ss.len() {
            assert(rest[i - 1] == ss[i]);
        }
        lemma_due_count(rest, t, i - 1);
        assert(ss[0].t_us <= t);
    }
}

proof fn lemma_moved_push(b: BuilderState, ss: Seq<Sample>, s: Sample)
    ensures
        moved(b, ss.push(s)) == move_abs_step(moved(b, ss), s.t_us, s.x, s.y),
    decreases ss.len(),
{
    if ss.len() == 0 {
        assert(ss.push(s).drop_first() =~= Seq::<Sample>::empty());
        assert(ss.push(s)[0] == s);
        let b1 = move_abs_step(b, s.t_us, s.x, s.y);
        assert(moved(b1, Seq::<Sample>::empty()) == b1);
        assert(moved(b, ss) == b);
    } else {
        assert(ss.push(s).drop_first() =~= ss.drop_first().push(s));
        assert(ss.push(s)[0] == ss[0]);
        lemma_moved_push(move_abs_step(b, ss[0].t_us, ss[0].x, ss[0].y), ss.drop_first(), s);
    }
}

/// What a [`Merger`] holds.
pub ghost struct MergerState {
    pub b: BuilderState,
    /// Whether a cursor stream feeds absolute positions.
    pub cursor: bool,
    /// Samples received and not yet due.
    pub pending: Seq<Sample>,
    pub last_t: u64,
}

/// The merge state after the samples `arrived` have come in and those due
/// by `t` have moved the pointer.
pub open spec fn drained(st: MergerState, t: u64, arrived: Seq<Sample>) -> MergerState {
    let all = st.pending + arrived;
    let k = due_count(all, t) as int;
    MergerState { b: moved(st.b, all.take(k)), pending: all.skip(k), ..st }
}

/// The header of a merged recording: the stream's size, if it reported
/// one, overridden by the size asked for.
pub open spec fn merged_header(size: Option<(u32, u32)>, screen: Option<(u32, u32)>) -> Header {
    match screen {
        Some((w, h)) => Header { screen_w: w, screen_h: h, ..default_header() },
        None => match size {
            Some((w, h)) => Header { screen_w: w, screen_h: h, ..default_header() },
            None => default_header(),
        },
    }
}

/// Merges absolute cursor samples and raw evdev events into one builder.
pub struct Merger {
    b: Builder,
    cursor: bool,
    pending: VecDeque<Sample>,
    last_t: u64,
}

impl View for Merger {
    type V = MergerState;

    closed spec fn view(&self) -> MergerState {
        MergerState { b: self.b@, cursor: self.cursor, pending: self.pending@, last_t: self.last_t }
    }
}

impl Merger {
    /// `cursor`: whether a cursor stream feeds absolute positions.
    pub fn new(opts: &Options, cursor: bool) -> (m: Self)
        ensures
            m@ == (MergerState {
                b: super::builder::fresh(opts.min_move_interval_us, opts.stop_key),
                cursor,
                pending: seq![],
                last_t: 0,
            }),
    {
        Merger { b: Builder::new(opts), cursor, pending: VecDeque::new(), last_t: 0 }
    }

    /// Take in the samples `arrived` and emit those stamped up to `t` as
    /// absolute moves.
    pub fn drain_cursor(&mut self, t: u64, arrived: &[Sample])
        ensures
            final(self)@ == drained(old(self)@, t, arrived@),
    {
        let ghost all = self.pending@ + arrived@;
        let mut j: usize = 0;
        while j < arrived.len()
            invariant
                j <= arrived@.len(),
                self.pending@ == old(self).pending@ + arrived@.take(j as int),
                self.b@ == old(self).b@,
                self.cursor == old(self).cursor,
                self.last_t == old(self).last_t,
            decreases arrived.len() - j,
        {
            self.pending.push_back(arrived[j]);
            proof {
                assert(arrived@.take(j as int + 1) =~= arrived@.take(j as int).push(arrived@[j as int]));
            }
            j = j + 1;
        }
        assert(arrived@.take(j as int) =~= arrived@);
        assert(self.pending@ == all);
        let n: usize = self.pending.len();
        let mut i: usize = 0;
        while self.pending.len() > 0 && self.pending[0].t_us <= t
            invariant
                i <= all.len(),
                all.len() == n,
                self.pending@ == all.skip(i as int),
                forall|k: int| 0 <= k < i ==> #[trigger] all[k].t_us <= t,
                self.b@ == moved(old(self).b@, all.take(i as int)),
                self.cursor == old(self).cursor,
                self.last_t == old(self).last_t,
            decreases all.len() - i,
        {
            match self.pending.pop_front() {
                Some(s) => {
                    assert(s == all[i as int]);
                    self.b.move_abs(s.t_us, s.x, s.y);
                    proof {
                        assert(all.take(i as int + 1) =~= all.take(i as int).push(s));
                        lemma_moved_push(old(self).b@, all.take(i as int), s);
                        assert(all.skip(i as int).subrange(1, all.skip(i as int).len() as int) =~= all.skip(
                            i as int + 1,
                        ));
                    }
                    i = i + 1;
                },
                None => {},
            }
        }
        proof {
            lemma_due_count(all, t, i as int);
        }
    }

    /// Whether `feed` can take `e`: relative motion, which only counts
    /// without a cursor stream, must sum without overflow.
    pub fn fits(&self, e: &RawEvent) -> (r: bool)
        ensures
            r == match e.ev {
                Raw::Rel { dx, dy } => self@.cursor || motion_fits(self@.b, e.t_us, dx, dy),
                _ => true,
            },
    {
        match e.ev {
            Raw::Rel { dx, dy } => self.cursor || self.b.motion_fits(e.t_us, dx, dy),
            _ => true,
        }
    }

    /// Take a raw event, after the cursor samples due by its time; with a
    /// cursor stream, evdev's relative motion is redundant and dropped.
    /// Samples come only from a cursor stream.
    pub fn feed(&mut self, e: RawEvent, arrived: &[Sample])
        requires
            !old(self)@.cursor ==> arrived@.len() == 0 && old(self)@.pending.len() == 0,
            match e.ev {
                Raw::Rel { dx, dy } => !old(self)@.cursor ==> motion_fits(old(self)@.b, e.t_us, dx, dy),
                _ => true,
            },
        ensures
            ({
                let d = drained(old(self)@, e.t_us, arrived@);
                final(self)@ == MergerState {
                    b: applied(d.b, e, old(self)@.cursor),
                    last_t: e.t_us,
                    ..d
                }
            }),
    {
        self.drain_cursor(e.t_us, arrived);
        proof {
            if !self.cursor {
                assert(old(self).pending@ + arrived@ =~= Seq::<Sample>::empty());
                assert(due_count(Seq::<Sample>::empty(), e.t_us) == 0);
                assert(Seq::<Sample>::empty().take(0) =~= Seq::<Sample>::empty());
                assert(self.b@ == old(self).b@);
            }
        }
        self.last_t = e.t_us;
        apply(&mut self.b, &e, self.cursor);
    }

    /// The recording: cursor samples up to the later of the last event and
    /// `now_us` still count (a final hover), then the header, with the
    /// stream's `size` and the asked-for `screen`.
    pub fn finish(self, now_us: u64, arrived: &[Sample], size: Option<(u32, u32)>, screen: Option<(u32, u32)>) -> (m: Macro)
        ensures
            m.header == merged_header(size, screen),
            m.events@ == released(
                flushed(
                    drained(
                        self@,
                        if self@.last_t >= now_us {
                            self@.last_t
                        } else {
                            now_us
                        },
                        arrived@,
                    ).b,
                ).events,
            ),
    {
        let mut me = self;
        let t = if me.last_t >= now_us {
            me.last_t
        } else {
            now_us
        };
        me.drain_cursor(t, arrived);
        let mut header = Header::default();
        if let Some((w, h)) = size {
            header.screen_w = w;
            header.screen_h = h;
        }
        if let Some((w, h)) = screen {
            header.screen_w = w;
            header.screen_h = h;
        }
        me.b.finish(header)
    }
}

} // verus!
