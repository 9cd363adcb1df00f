//! Binary payload layout: a 32-byte header followed by fixed 16-byte events,
//! all fields little-endian.  The portable player reads the same layout.

use crate::bytes::{bits_of_i32, get16, get32, i32_bits, i32_from_bits, i32_of_bits, le16, le32, push_le16, push_le32};
use crate::chars::{chars_of, lower_all, lower_vec, spells, str_from_utf8};
use crate::exe::{extract, extracted, has_payload, MACRO_ENTRY};
use crate::num::{append_dec, dec};
use crate::text::{parsed, script};
use crate::zip::readable;
use crate::Error;
use vstd::utf8::{decode_utf8, valid_utf8};
use vstd::prelude::*;
use vstd::string::*;

verus! {

pub const FORMAT_VERSION: u16 = 1;
pub const HEADER_LEN: usize = 32;
pub const EVENT_LEN: usize = 16;

/// evdev button codes.
pub const BTN_LEFT: u16 = 0x110;
pub const BTN_RIGHT: u16 = 0x111;
pub const BTN_MIDDLE: u16 = 0x112;
pub const BTN_SIDE: u16 = 0x113;
pub const BTN_EXTRA: u16 = 0x114;

/// Scroll unit: one wheel notch.
pub const SCROLL_NOTCH: i32 = 120;

#[derive(Clone, Copy, Debug, PartialEq, Eq, Structural, Hash)]
pub enum EventType {
    /// `x`,`y`: absolute pointer position in recorded screen pixels.
    MoveAbs,
    /// `x`,`y`: relative pointer delta.
    MoveRel,
    /// `code`: evdev `BTN_*`.
    ButtonPress,
    ButtonRelease,
    /// `code`: evdev `KEY_*`.
    KeyPress,
    KeyRelease,
    /// `x`,`y`: 1/120 of a notch; +y = down, +x = right.
    Scroll,
}

/// The number that stands for each event type in the payload.
pub open spec fn kind_code(k: EventType) -> u16 {
    match k {
        EventType::MoveAbs => 1,
        EventType::MoveRel => 2,
        EventType::ButtonPress => 3,
        EventType::ButtonRelease => 4,
        EventType::KeyPress => 5,
        EventType::KeyRelease => 6,
        EventType::Scroll => 7,
    }
}

/// The event type a payload number stands for, if any.
pub open spec fn kind_of(v: u16) -> Option<EventType> {
    if v == 1 {
        Some(EventType::MoveAbs)
    } else if v == 2 {
        Some(EventType::MoveRel)
    } else if v == 3 {
        Some(EventType::ButtonPress)
    } else if v == 4 {
        Some(EventType::ButtonRelease)
    } else if v == 5 {
        Some(EventType::KeyPress)
    } else if v == 6 {
        Some(EventType::KeyRelease)
    } else if v == 7 {
        Some(EventType::Scroll)
    } else {
        None
    }
}

impl EventType {
    pub fn from_u16(v: u16) -> (r: Option<Self>)
        ensures
            r == kind_of(v),
    {
        match v {
            1 => Some(EventType::MoveAbs),
            2 => Some(EventType::MoveRel),
            3 => Some(EventType::ButtonPress),
            4 => Some(EventType::ButtonRelease),
            5 => Some(EventType::KeyPress),
            6 => Some(EventType::KeyRelease),
            7 => Some(EventType::Scroll),
            _ => None,
        }
    }

    /// The payload number of this event type.
    pub fn to_u16(self) -> (r: u16)
        ensures
            r == kind_code(self),
    {
        match self {
            EventType::MoveAbs => 1,
            EventType::MoveRel => 2,
            EventType::ButtonPress => 3,
            EventType::ButtonRelease => 4,
            EventType::KeyPress => 5,
            EventType::KeyRelease => 6,
            EventType::Scroll => 7,
        }
    }
}

pub proof fn lemma_kind_roundtrip(k: EventType)
    ensures
        kind_of(kind_code(k)) == Some(k),
{
}

/// One recorded input event. `delay_us` is the pause *before* the event.
#[derive(Clone, Copy, Debug, PartialEq, Eq, Structural)]
pub struct Event {
    pub kind: EventType,
    pub code: u16,
    pub x: i32,
    pub y: i32,
    pub delay_us: u32,
}

impl Event {
    pub fn new(kind: EventType, delay_us: u32) -> (e: Self)
        ensures
            e == (Event { kind, code: 0, x: 0, y: 0, delay_us }),
    {
        Event { kind, code: 0, x: 0, y: 0, delay_us }
    }

    pub fn move_abs(x: i32, y: i32, delay_us: u32) -> (e: Self)
        ensures
            e == (Event { kind: EventType::MoveAbs, code: 0, x, y, delay_us }),
    {
        Event { x, y, ..Self::new(EventType::MoveAbs, delay_us) }
    }

    pub fn move_rel(x: i32, y: i32, delay_us: u32) -> (e: Self)
        ensures
            e == (Event { kind: EventType::MoveRel, code: 0, x, y, delay_us }),
    {
        Event { x, y, ..Self::new(EventType::MoveRel, delay_us) }
    }

    pub fn button(code: u16, pressed: bool, delay_us: u32) -> (e: Self)
        ensures
            e == (Event {
                kind: if pressed { EventType::ButtonPress } else { EventType::ButtonRelease },
                code,
                x: 0,
                y: 0,
                delay_us,
            }),
    {
        let kind = if pressed {
            EventType::ButtonPress
        } else {
            EventType::ButtonRelease
        };
        Event { code, ..Self::new(kind, delay_us) }
    }

    pub fn key(code: u16, pressed: bool, delay_us: u32) -> (e: Self)
        ensures
            e == (Event {
                kind: if pressed { EventType::KeyPress } else { EventType::KeyRelease },
                code,
                x: 0,
                y: 0,
                delay_us,
            }),
    {
        let kind = if pressed {
            EventType::KeyPress
        } else {
            EventType::KeyRelease
        };
        Event { code, ..Self::new(kind, delay_us) }
    }

    pub fn scroll(x: i32, y: i32, delay_us: u32) -> (e: Self)
        ensures
            e == (Event { kind: EventType::Scroll, code: 0, x, y, delay_us }),
    {
        Event { x, y, ..Self::new(EventType::Scroll, delay_us) }
    }

    /// Append the 16 payload bytes of this event.
    pub fn write(&self, out: &mut Vec<u8>)
        ensures
            final(out)@ == old(out)@ + event_bytes(*self),
    {
        push_le16(out, self.kind.to_u16());
        push_le16(out, self.code);
        push_le32(out, bits_of_i32(self.x));
        push_le32(out, bits_of_i32(self.y));
        push_le32(out, self.delay_us);
        reveal(event_bytes);
        assert(final(out)@ =~= old(out)@ + event_bytes(*self));
    }

    /// Read the event stored at `b[off..off + 16]`.
    pub fn read(b: &[u8], off: usize) -> (r: Result<Self, Error>)
        requires
            off + 16 <= b.len(),
        ensures
            match r {
                Ok(e) => event_at(b@, off as int) == Some(e),
                Err(Error::Invalid(msg)) => event_at(b@, off as int) is None
                    && msg@ == unknown_kind_msg(get16(b@, off as int)),
                Err(_) => false,
            },
    {
        let kind_raw = crate::zip::rd16(b, off);
        match EventType::from_u16(kind_raw) {
            Some(kind) => Ok(Event {
                kind,
                code: crate::zip::rd16(b, off + 2),
                x: i32_from_bits(crate::zip::rd32(b, off + 4)),
                y: i32_from_bits(crate::zip::rd32(b, off + 8)),
                delay_us: crate::zip::rd32(b, off + 12),
            }),
            None => {
                let mut msg = String::from_str("unknown event type ");
                append_dec(&mut msg, kind_raw as u64);
                Err(Error::Invalid(msg))
            },
        }
    }
}

/// The 16 payload bytes of an event.
#[verifier::opaque]
pub open spec fn event_bytes(e: Event) -> Seq<u8> {
    le16(kind_code(e.kind)) + le16(e.code) + le32(i32_bits(e.x)) + le32(i32_bits(e.y)) + le32(
        e.delay_us,
    )
}

/// The event stored at `b[off..off + 16]`, if its type number is known.
pub open spec fn event_at(b: Seq<u8>, off: int) -> Option<Event> {
    match kind_of(get16(b, off)) {
        Some(kind) => Some(
            Event {
                kind,
                code: get16(b, off + 2),
                x: i32_of_bits(get32(b, off + 4)),
                y: i32_of_bits(get32(b, off + 8)),
                delay_us: get32(b, off + 12),
            },
        ),
        None => None,
    }
}

pub open spec fn unknown_kind_msg(raw: u16) -> Seq<char> {
    "unknown event type "@ + dec(raw as nat)
}

/// Payload bytes of a list of events, in order.
pub open spec fn events_bytes(es: Seq<Event>) -> Seq<u8>
    decreases es.len(),
{
    if es.len() == 0 {
        Seq::empty()
    } else {
        events_bytes(es.drop_last()) + event_bytes(es.last())
    }
}

/// Playback metadata stored ahead of the events.
#[derive(Clone, Copy, Debug, PartialEq, Eq, Structural)]
pub struct Header {
    /// Screen size at recording time; 0 disables scaling on playback.
    pub screen_w: u32,
    pub screen_h: u32,
    /// Default repeat count, 0 = forever.
    pub repeat: u32,
    /// Default speed in percent, 100 = real time.
    pub speed_percent: u32,
}

/// The header a new macro starts with.
pub open spec fn default_header() -> Header {
    Header { screen_w: 0, screen_h: 0, repeat: 1, speed_percent: 100 }
}

impl Default for Header {
    fn default() -> (h: Self)
        ensures
            h == default_header(),
    {
        Header { screen_w: 0, screen_h: 0, repeat: 1, speed_percent: 100 }
    }
}

/// The 32 header bytes for `h` announcing `count` events.
pub open spec fn header_bytes(h: Header, count: u32) -> Seq<u8> {
    le16(FORMAT_VERSION) + le16(0) + le32(count) + le32(h.screen_w) + le32(h.screen_h) + le32(
        h.repeat,
    ) + le32(h.speed_percent) + Seq::new(8, |i: int| 0u8)
}

/// The event count field as the payload stores it (32 bits).
pub open spec fn count_field(n: nat) -> u32 {
    (n % 0x1_0000_0000) as u32
}

/// The payload of a macro with header `h` and events `es`.
pub open spec fn payload(h: Header, es: Seq<Event>) -> Seq<u8> {
    header_bytes(h, count_field(es.len())) + events_bytes(es)
}

/// Header fields stored in a payload.
pub open spec fn header_at(b: Seq<u8>) -> Header {
    Header {
        screen_w: get32(b, 8),
        screen_h: get32(b, 12),
        repeat: get32(b, 16),
        speed_percent: get32(b, 20),
    }
}

/// The event count a payload announces.
pub open spec fn count_at(b: Seq<u8>) -> nat {
    get32(b, 4) as nat
}

/// The header is complete and names the supported version.
pub open spec fn header_ok(b: Seq<u8>) -> bool {
    b.len() >= HEADER_LEN && get16(b, 0) == FORMAT_VERSION
}

/// The body holds exactly the announced number of events.
pub open spec fn body_len_ok(b: Seq<u8>) -> bool {
    b.len() - HEADER_LEN == count_at(b) * EVENT_LEN
}

/// Event `i` of the body has a known type.
pub open spec fn event_ok(b: Seq<u8>, i: int) -> bool {
    event_at(b, HEADER_LEN + i * EVENT_LEN) is Some
}

/// A payload that decodes.
pub open spec fn payload_ok(b: Seq<u8>) -> bool {
    &&& header_ok(b)
    &&& body_len_ok(b)
    &&& forall|i: int| 0 <= i < count_at(b) ==> #[trigger] event_ok(b, i)
}

/// Event `i` is the first one whose type number is unknown.
pub open spec fn first_bad_event(b: Seq<u8>, i: int) -> bool {
    &&& 0 <= i < count_at(b)
    &&& !event_ok(b, i)
    &&& forall|j: int| 0 <= j < i ==> #[trigger] event_ok(b, j)
}

/// The events a well-formed payload holds.
pub open spec fn events_at(b: Seq<u8>) -> Seq<Event> {
    Seq::new(count_at(b), |i: int| event_at(b, HEADER_LEN + i * EVENT_LEN).unwrap())
}

pub open spec fn length_msg(b: Seq<u8>) -> Seq<char> {
    "expected "@ + dec((count_at(b) * EVENT_LEN) as nat) + " event bytes, found "@ + dec(
        (b.len() - HEADER_LEN) as nat,
    )
}

/// Sum of the pauses of `es`, in microseconds.
pub open spec fn total_delay(es: Seq<Event>) -> nat
    decreases es.len(),
{
    if es.len() == 0 {
        0
    } else {
        total_delay(es.drop_last()) + es.last().delay_us as nat
    }
}

/// `r` is what `Macro::decode` returns on the payload `b`: the macro it
/// holds, or the first problem found with it.
pub open spec fn decoded(b: Seq<u8>, r: Result<Macro, Error>) -> bool {
    match r {
        Ok(m) => payload_ok(b) && m.header == header_at(b) && m.events@ == events_at(b),
        Err(Error::Version(v)) => b.len() >= HEADER_LEN && get16(b, 0) != FORMAT_VERSION && v == get16(
            b,
            0,
        ),
        Err(Error::Invalid(msg)) => {
            ||| b.len() < HEADER_LEN && msg@ == "payload shorter than header"@
            ||| header_ok(b) && !body_len_ok(b) && msg@ == length_msg(b)
            ||| header_ok(b) && body_len_ok(b) && exists|i: int|
                #[trigger] first_bad_event(b, i) && msg@ == unknown_kind_msg(
                    get16(b, HEADER_LEN + i * EVENT_LEN),
                )
        },
        Err(Error::Syntax { .. }) => false,
    }
}

/// A complete macro.
#[derive(Clone, Debug, PartialEq, Eq)]
pub struct Macro {
    pub header: Header,
    pub events: Vec<Event>,
}

impl Default for Macro {
    fn default() -> (m: Self)
        ensures
            m.header == default_header(),
            m.events@ == Seq::<Event>::empty(),
    {
        Macro { header: Header::default(), events: Vec::new() }
    }
}

impl Macro {
    /// Total duration at 100% speed.
    pub fn duration_us(&self) -> (d: u64)
        requires
            total_delay(self.events@) <= u64::MAX,
        ensures
            d == total_delay(self.events@),
    {
        let mut sum: u64 = 0;
        let mut i: usize = 0;
        while i < self.events.len()
            invariant
                i <= self.events@.len(),
                total_delay(self.events@) <= u64::MAX,
                sum == total_delay(self.events@.take(i as int)),
            decreases self.events.len() - i,
        {
            proof {
                lemma_total_delay_prefix(self.events@, i as int + 1);
                lemma_total_delay_mono(self.events@, i as int + 1);
                assert(self.events@.take(i as int + 1).drop_last() =~= self.events@.take(i as int));
            }
            sum = sum + self.events[i].delay_us as u64;
            i = i + 1;
        }
        assert(self.events@.take(i as int) =~= self.events@);
        sum
    }

    /// Serialise header + events (the "payload").
    pub fn encode(&self) -> (out: Vec<u8>)
        ensures
            out@ == payload(self.header, self.events@),
    {
        let mut out: Vec<u8> = Vec::new();
        let count = (self.events.len() as u64 % 0x1_0000_0000u64) as u32;
        push_le16(&mut out, FORMAT_VERSION);
        push_le16(&mut out, 0);
        push_le32(&mut out, count);
        push_le32(&mut out, self.header.screen_w);
        push_le32(&mut out, self.header.screen_h);
        push_le32(&mut out, self.header.repeat);
        push_le32(&mut out, self.header.speed_percent);
        let mut k: usize = 0;
        while k < 8
            invariant
                k <= 8,
                out@.len() == 24 + k,
                forall|j: int| 24 <= j < 24 + k ==> out@[j] == 0u8,
                out@.subrange(0, 24) == le16(FORMAT_VERSION) + le16(0) + le32(count) + le32(
                    self.header.screen_w,
                ) + le32(self.header.screen_h) + le32(self.header.repeat) + le32(
                    self.header.speed_percent,
                ),
            decreases 8 - k,
        {
            out.push(0u8);
            k = k + 1;
            assert(out@.subrange(0, 24) =~= fixed_fields(out@));
        }
        assert(out@ =~= header_bytes(self.header, count_field(self.events@.len())));
        let ghost hb = out@;
        let mut i: usize = 0;
        while i < self.events.len()
            invariant
                i <= self.events@.len(),
                out@ == hb + events_bytes(self.events@.take(i as int)),
            decreases self.events.len() - i,
        {
            self.events[i].write(&mut out);
            proof {
                assert(self.events@.take(i as int + 1).drop_last() =~= self.events@.take(i as int));
            }
            i = i + 1;
        }
        assert(self.events@.take(i as int) =~= self.events@);
        out
    }

    /// Parse a raw payload produced by [`Macro::encode`].
    pub fn decode(b: &[u8]) -> (r: Result<Self, Error>)
        ensures
            decoded(b@, r),
    {
        if b.len() < HEADER_LEN {
            return Err(Error::Invalid(String::from_str("payload shorter than header")));
        }
        let version = crate::zip::rd16(b, 0);
        if version != FORMAT_VERSION {
            return Err(Error::Version(version));
        }
        let count = crate::zip::rd32(b, 4);
        let header = Header {
            screen_w: crate::zip::rd32(b, 8),
            screen_h: crate::zip::rd32(b, 12),
            repeat: crate::zip::rd32(b, 16),
            speed_percent: crate::zip::rd32(b, 20),
        };
        let body_len = (b.len() - HEADER_LEN) as u64;
        let want = count as u64 * EVENT_LEN as u64;
        if body_len != want {
            let mut msg = String::from_str("expected ");
            append_dec(&mut msg, want);
            msg.append(" event bytes, found ");
            append_dec(&mut msg, body_len);
            proof {
                assert(msg@ =~= length_msg(b@));
            }
            return Err(Error::Invalid(msg));
        }
        let mut events: Vec<Event> = Vec::new();
        let mut i: usize = 0;
        while i < count as usize
            invariant
                header_ok(b@),
                body_len_ok(b@),
                count == count_at(b@),
                i <= count,
                events@.len() == i,
                forall|j: int| 0 <= j < i ==> #[trigger] event_ok(b@, j),
                forall|j: int| 0 <= j < i ==> #[trigger] events@[j] == events_at(b@)[j],
            decreases count - i,
        {
            proof {
                assert(i * 16 + 16 <= count * 16) by (nonlinear_arith)
                    requires
                        i < count,
                ;
                assert(HEADER_LEN + i * 16 + 16 <= b.len());
            }
            let off = HEADER_LEN + i * EVENT_LEN;
            match Event::read(b, off) {
                Ok(e) => {
                    events.push(e);
                },
                Err(err) => {
                    assert(first_bad_event(b@, i as int));
                    return Err(err);
                },
            }
            i = i + 1;
        }
        assert(events@ =~= events_at(b@));
        Ok(Macro { header, events })
    }

    /// Detect the container format and load from any supported representation.
    pub fn load(bytes: &[u8]) -> (r: Result<Self, Error>)
        ensures
            loaded(bytes@, r),
    {
        if has_payload(bytes) {
            return extract(bytes);
        }
        if bytes.len() >= HEADER_LEN && bytes[0] == 1 && bytes[1] == 0 {
            match Self::decode(bytes) {
                Ok(m) => return Ok(m),
                Err(_) => {
                    proof {
                        if payload_ok(bytes@) {
                            assert forall|i: int| !first_bad_event(bytes@, i) by {
                                if 0 <= i < count_at(bytes@) {
                                    assert(event_ok(bytes@, i));
                                }
                            }
                        }
                    }
                },
            }
        }
        match str_from_utf8(bytes) {
            Some(s) => crate::text::parse(s),
            None => Err(Error::Invalid(String::from_str("not a payload, executable, or UTF-8 script"))),
        }
    }
}

/// `r` is what `Macro::load` returns for `b`: the macro of an executable
/// that carries one, else of a well-formed payload, else of a UTF-8 script.
pub open spec fn loaded(b: Seq<u8>, r: Result<Macro, Error>) -> bool {
    if readable(b, MACRO_ENTRY@) {
        extracted(b, r)
    } else if payload_ok(b) {
        match r {
            Ok(m) => m.header == header_at(b) && m.events@ == events_at(b),
            Err(_) => false,
        }
    } else if valid_utf8(b) {
        parsed(script(decode_utf8(b)), r)
    } else {
        match r {
            Err(Error::Invalid(msg)) => msg@ == "not a payload, executable, or UTF-8 script"@,
            _ => false,
        }
    }
}

/// Sum of pauses, prefix step.
pub proof fn lemma_total_delay_prefix(es: Seq<Event>, n: int)
    requires
        0 < n <= es.len(),
    ensures
        total_delay(es.take(n)) == total_delay(es.take(n - 1)) + es[n - 1].delay_us,
        total_delay(es.take(n - 1)) <= total_delay(es),
{
    assert(es.take(n).drop_last() =~= es.take(n - 1));
    lemma_total_delay_mono(es, n - 1);
}

/// Pauses of a prefix add up to no more than those of the whole list.
pub proof fn lemma_total_delay_mono(es: Seq<Event>, n: int)
    requires
        0 <= n <= es.len(),
    ensures
        total_delay(es.take(n)) <= total_delay(es),
    decreases es.len() - n,
{
    if n < es.len() {
        lemma_total_delay_mono(es, n + 1);
        assert(es.take(n + 1).drop_last() =~= es.take(n));
    } else {
        assert(es.take(n) =~= es);
    }
}

/// The fixed fields at the start of a payload under construction.
spec fn fixed_fields(s: Seq<u8>) -> Seq<u8> {
    s.subrange(0, 24)
}

/// The event bytes of a list are 16 per event.
pub proof fn lemma_events_bytes_len(es: Seq<Event>)
    ensures
        events_bytes(es).len() == es.len() * EVENT_LEN,
    decreases es.len(),
{
    reveal(event_bytes);
    if es.len() > 0 {
        lemma_events_bytes_len(es.drop_last());
    }
}

/// The event bytes of a concatenation are the concatenation of the bytes.
pub proof fn lemma_events_bytes_concat(a: Seq<Event>, b: Seq<Event>)
    ensures
        events_bytes(a + b) == events_bytes(a) + events_bytes(b),
    decreases b.len(),
{
    if b.len() == 0 {
        assert(a + b =~= a);
        assert(events_bytes(a) + events_bytes(b) =~= events_bytes(a));
    } else {
        lemma_events_bytes_concat(a, b.drop_last());
        assert((a + b).drop_last() =~= a + b.drop_last());
        assert((a + b).last() == b.last());
        assert(events_bytes(a + b) =~= events_bytes(a) + events_bytes(b));
    }
}

/// An event written at offset `p.len()` reads back as itself.
#[verifier::spinoff_prover]
#[verifier::rlimit(40)]
pub proof fn lemma_event_at(p: Seq<u8>, e: Event, s: Seq<u8>)
    ensures
        event_at(p + event_bytes(e) + s, p.len() as int) == Some(e),
{
    reveal(event_bytes);
    let b = p + event_bytes(e) + s;
    let n = p.len() as int;
    let k = le16(kind_code(e.kind));
    let c = le16(e.code);
    let x = le32(i32_bits(e.x));
    let y = le32(i32_bits(e.y));
    let d = le32(e.delay_us);
    assert(b =~= p + k + (c + x + y + d + s));
    crate::bytes::lemma_get16(p, kind_code(e.kind), c + x + y + d + s);
    assert(b =~= (p + k) + c + (x + y + d + s));
    crate::bytes::lemma_get16(p + k, e.code, x + y + d + s);
    assert(b =~= (p + k + c) + x + (y + d + s));
    crate::bytes::lemma_get32(p + k + c, i32_bits(e.x), y + d + s);
    assert(b =~= (p + k + c + x) + y + (d + s));
    crate::bytes::lemma_get32(p + k + c + x, i32_bits(e.y), d + s);
    assert(b =~= (p + k + c + x + y) + d + s);
    crate::bytes::lemma_get32(p + k + c + x + y, e.delay_us, s);
    crate::bytes::lemma_i32_bits(e.x);
    crate::bytes::lemma_i32_bits(e.y);
    lemma_kind_roundtrip(e.kind);
}

/// The header fields read back from `header_bytes(h, n) + rest`.
pub proof fn lemma_header_at(h: Header, n: u32, rest: Seq<u8>)
    ensures
        header_bytes(h, n).len() == HEADER_LEN,
        get16(header_bytes(h, n) + rest, 0) == FORMAT_VERSION,
        get32(header_bytes(h, n) + rest, 4) == n,
        header_at(header_bytes(h, n) + rest) == h,
{
    let b = header_bytes(h, n) + rest;
    let z = Seq::new(8, |i: int| 0u8);
    let v0 = le16(FORMAT_VERSION);
    let f = le16(0);
    let cnt = le32(n);
    let w = le32(h.screen_w);
    let hh = le32(h.screen_h);
    let r = le32(h.repeat);
    let sp = le32(h.speed_percent);
    assert(b =~= Seq::<u8>::empty() + v0 + (f + cnt + w + hh + r + sp + z + rest));
    crate::bytes::lemma_get16(Seq::empty(), FORMAT_VERSION, f + cnt + w + hh + r + sp + z + rest);
    assert(b =~= (v0 + f) + cnt + (w + hh + r + sp + z + rest));
    crate::bytes::lemma_get32(v0 + f, n, w + hh + r + sp + z + rest);
    assert(b =~= (v0 + f + cnt) + w + (hh + r + sp + z + rest));
    crate::bytes::lemma_get32(v0 + f + cnt, h.screen_w, hh + r + sp + z + rest);
    assert(b =~= (v0 + f + cnt + w) + hh + (r + sp + z + rest));
    crate::bytes::lemma_get32(v0 + f + cnt + w, h.screen_h, r + sp + z + rest);
    assert(b =~= (v0 + f + cnt + w + hh) + r + (sp + z + rest));
    crate::bytes::lemma_get32(v0 + f + cnt + w + hh, h.repeat, sp + z + rest);
    assert(b =~= (v0 + f + cnt + w + hh + r) + sp + (z + rest));
    crate::bytes::lemma_get32(v0 + f + cnt + w + hh + r, h.speed_percent, z + rest);
}

/// Event `i` of a payload reads back as `es[i]`.
pub proof fn lemma_payload_event(h: Header, es: Seq<Event>, i: int)
    requires
        0 <= i < es.len(),
    ensures
        event_at(payload(h, es), HEADER_LEN + i * EVENT_LEN) == Some(es[i]),
{
    let hdr = header_bytes(h, count_field(es.len()));
    assert(hdr.len() == HEADER_LEN);
    let pre = es.take(i);
    let post = es.skip(i + 1);
    assert(es =~= pre + seq![es[i]] + post);
    lemma_events_bytes_concat(pre + seq![es[i]], post);
    lemma_events_bytes_concat(pre, seq![es[i]]);
    assert(events_bytes(seq![es[i]]) =~= event_bytes(es[i])) by {
        assert(seq![es[i]].drop_last() =~= Seq::<Event>::empty());
        assert(events_bytes(seq![es[i]]) == events_bytes(Seq::<Event>::empty()) + event_bytes(es[i]));
        assert(Seq::<u8>::empty() + event_bytes(es[i]) =~= event_bytes(es[i]));
    }
    lemma_events_bytes_len(pre);
    assert(payload(h, es) =~= (hdr + events_bytes(pre)) + event_bytes(es[i]) + events_bytes(post));
    lemma_event_at(hdr + events_bytes(pre), es[i], events_bytes(post));
}

/// The payload's layout, as the player reads it: version 1 in bytes 0..2,
/// the event count in 4..8, then little-endian `u32`s screen width (8),
/// screen height (12), repeat count (16) and speed (20), eight zero bytes,
/// and from byte 32 one 16-byte record per event: type number (1 absolute
/// move, 2 relative move, 3 button press, 4 button release, 5 key press,
/// 6 key release, 7 scroll), code, x, y and the pause before it.  Decoding
/// reads the header fields from the same places.
pub proof fn law_payload_layout(h: Header, es: Seq<Event>, b: Seq<u8>)
    requires
        es.len() <= u32::MAX,
    ensures
        payload(h, es).len() == 32 + 16 * es.len(),
        get16(payload(h, es), 0) == 1,
        get32(payload(h, es), 4) == es.len(),
        get32(payload(h, es), 8) == h.screen_w,
        get32(payload(h, es), 12) == h.screen_h,
        get32(payload(h, es), 16) == h.repeat,
        get32(payload(h, es), 20) == h.speed_percent,
        forall|j: int| 24 <= j < 32 ==> payload(h, es)[j] == 0,
        forall|i: int|
            0 <= i < es.len() ==> {
                let p = payload(h, es);
                let o = 32 + 16 * i;
                &&& get16(p, o) == match (#[trigger] es[i]).kind {
                    EventType::MoveAbs => 1u16,
                    EventType::MoveRel => 2u16,
                    EventType::ButtonPress => 3u16,
                    EventType::ButtonRelease => 4u16,
                    EventType::KeyPress => 5u16,
                    EventType::KeyRelease => 6u16,
                    EventType::Scroll => 7u16,
                }
                &&& get16(p, o + 2) == es[i].code
                &&& i32_of_bits(get32(p, o + 4)) == es[i].x
                &&& i32_of_bits(get32(p, o + 8)) == es[i].y
                &&& get32(p, o + 12) == es[i].delay_us
            },
        header_at(b).screen_w == get32(b, 8),
        header_at(b).screen_h == get32(b, 12),
        header_at(b).repeat == get32(b, 16),
        header_at(b).speed_percent == get32(b, 20),
{
    let p = payload(h, es);
    law_encode_then_decode(h, es);
    lemma_header_at(h, count_field(es.len()), events_bytes(es));
    lemma_events_bytes_len(es);
    assert(count_field(es.len()) == es.len());
    assert forall|j: int| 24 <= j < 32 implies p[j] == 0 by {
        assert(p[j] == header_bytes(h, count_field(es.len()))[j]);
    }
    assert forall|i: int| 0 <= i < es.len() implies {
        let o = 32 + 16 * i;
        &&& get16(p, o) == match (#[trigger] es[i]).kind {
            EventType::MoveAbs => 1u16,
            EventType::MoveRel => 2u16,
            EventType::ButtonPress => 3u16,
            EventType::ButtonRelease => 4u16,
            EventType::KeyPress => 5u16,
            EventType::KeyRelease => 6u16,
            EventType::Scroll => 7u16,
        }
        &&& get16(p, o + 2) == es[i].code
        &&& i32_of_bits(get32(p, o + 4)) == es[i].x
        &&& i32_of_bits(get32(p, o + 8)) == es[i].y
        &&& get32(p, o + 12) == es[i].delay_us
    } by {
        assert(events_at(p)[i] == es[i]);
        assert(event_ok(p, i));
        assert(HEADER_LEN + i * EVENT_LEN == 32 + 16 * i);
        let e = event_at(p, 32 + 16 * i).unwrap();
        assert(e == es[i]);
        assert(kind_of(get16(p, 32 + 16 * i)) == Some(es[i].kind));
    }
}

/// Encoding then decoding a macro gives it back: the payload is well formed
/// and holds the same header and events, whenever the event count fits the
/// 32-bit count field.
pub proof fn law_encode_then_decode(h: Header, es: Seq<Event>)
    requires
        es.len() <= u32::MAX,
    ensures
        payload_ok(payload(h, es)),
        header_at(payload(h, es)) == h,
        events_at(payload(h, es)) == es,
{
    let b = payload(h, es);
    let n = count_field(es.len());
    assert(n == es.len());
    lemma_header_at(h, n, events_bytes(es));
    lemma_events_bytes_len(es);
    assert(count_at(b) == es.len());
    assert forall|i: int| 0 <= i < count_at(b) implies #[trigger] event_ok(b, i) by {
        lemma_payload_event(h, es, i);
    }
    assert forall|i: int| 0 <= i < es.len() implies #[trigger] events_at(b)[i] == es[i] by {
        lemma_payload_event(h, es, i);
    }
    assert(events_at(b) =~= es);
}

/// The form a macro is saved in.
#[derive(Clone, Copy, Debug, PartialEq, Eq, Structural)]
pub enum SaveKind {
    /// The raw binary payload.
    Payload,
    /// A standalone executable: the player with the macro.
    Executable,
    /// An editable text script.
    Script,
}

/// The form a file extension asks for, in any case: `.atbswp` the payload,
/// `.com` or `.exe` an executable, anything else a script.
pub open spec fn save_kind_of(ext: Seq<char>) -> SaveKind {
    let l = lower_all(ext);
    if l == "atbswp"@ {
        SaveKind::Payload
    } else if l == "com"@ || l == "exe"@ {
        SaveKind::Executable
    } else {
        SaveKind::Script
    }
}

/// The form a file extension asks for.
pub fn save_kind(ext: &str) -> (k: SaveKind)
    ensures
        k == save_kind_of(ext@),
{
    let cs = chars_of(ext);
    let l = lower_vec(cs.as_slice());
    if spells(l.as_slice(), "atbswp") {
        SaveKind::Payload
    } else if spells(l.as_slice(), "com") || spells(l.as_slice(), "exe") {
        SaveKind::Executable
    } else {
        SaveKind::Script
    }
}

} // verus!
