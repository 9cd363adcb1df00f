//! Serialising and reading SPA "PODs", PipeWire's self-describing binary
//! values: the video format we accept, the cursor-metadata request, and the
//! negotiated size read back from a Format object.

use crate::bytes::{get32, i32_bits, le32, push_all, push_le32, bits_of_i32};
use crate::zip::rd32;
use vstd::prelude::*;
use vstd::slice::slice_subrange;

verus! {

pub const SPA_META_CURSOR: u32 = 5;
pub const SPA_TYPE_ID: u32 = 3;
pub const SPA_TYPE_INT: u32 = 4;
pub const SPA_TYPE_RECTANGLE: u32 = 10;
pub const SPA_TYPE_FRACTION: u32 = 11;
pub const SPA_TYPE_OBJECT: u32 = 15;
pub const SPA_TYPE_CHOICE: u32 = 19;
pub const SPA_CHOICE_RANGE: u32 = 1;
pub const SPA_CHOICE_ENUM: u32 = 3;
pub const SPA_TYPE_OBJECT_FORMAT: u32 = 262147;
pub const SPA_TYPE_OBJECT_PARAM_META: u32 = 262149;
pub const SPA_PARAM_ENUM_FORMAT: u32 = 3;
pub const SPA_PARAM_FORMAT: u32 = 4;
pub const SPA_PARAM_META: u32 = 6;
pub const SPA_PARAM_META_TYPE: u32 = 1;
pub const SPA_PARAM_META_SIZE: u32 = 2;
pub const SPA_FORMAT_MEDIA_TYPE: u32 = 1;
pub const SPA_FORMAT_MEDIA_SUBTYPE: u32 = 2;
pub const SPA_FORMAT_VIDEO_FORMAT: u32 = 131073;
pub const SPA_FORMAT_VIDEO_SIZE: u32 = 131075;
pub const SPA_FORMAT_VIDEO_FRAMERATE: u32 = 131076;
pub const SPA_MEDIA_TYPE_VIDEO: u32 = 2;
pub const SPA_MEDIA_SUBTYPE_RAW: u32 = 1;
pub const SPA_VIDEO_FORMAT_RGBX: u32 = 7;
pub const SPA_VIDEO_FORMAT_BGRX: u32 = 8;
pub const SPA_VIDEO_FORMAT_RGBA: u32 = 11;
pub const SPA_VIDEO_FORMAT_BGRA: u32 = 12;
pub const SPA_VIDEO_FORMAT_RGB: u32 = 15;
pub const SPA_VIDEO_FORMAT_BGR: u32 = 16;
pub const SIZEOF_SPA_META_CURSOR: usize = 28;
pub const SIZEOF_SPA_META_BITMAP: usize = 20;

/// Zero bytes that pad `n` bytes to a multiple of 8.
pub open spec fn padding(n: nat) -> Seq<u8> {
    Seq::new(((8 - n % 8) % 8) as nat, |i: int| 0u8)
}

/// A POD of type `ty` with body `body`: `{u32 size, u32 type}`, the body,
/// then zeros up to a multiple of 8.
pub open spec fn prim_pod(ty: u32, body: Seq<u8>) -> Seq<u8> {
    le32(body.len() as u32) + le32(ty) + body + padding(body.len())
}

/// The values of a choice: each value POD's body, as long as the first
/// one's.
pub open spec fn choice_values(values: Seq<Seq<u8>>, child_size: nat) -> Seq<u8>
    decreases values.len(),
{
    if values.len() == 0 {
        seq![]
    } else {
        choice_values(values.drop_last(), child_size) + values.last().subrange(8, 8 + child_size as int)
    }
}

/// The body of a choice of kind `kind` over the value PODs `values`.
pub open spec fn choice_body(kind: u32, values: Seq<Seq<u8>>) -> Seq<u8> {
    let child_size = get32(values[0], 0);
    let child_type = get32(values[0], 4);
    le32(kind) + le32(0) + le32(child_size) + le32(child_type) + choice_values(values, child_size as nat)
}

/// The properties of an object: key, zero flags, value POD.
pub open spec fn props_bytes(props: Seq<(u32, Seq<u8>)>) -> Seq<u8>
    decreases props.len(),
{
    if props.len() == 0 {
        seq![]
    } else {
        props_bytes(props.drop_last()) + le32(props.last().0) + le32(0) + props.last().1
    }
}

/// Every value POD is long enough for the first one's body size.
pub open spec fn choice_ok(values: Seq<Seq<u8>>) -> bool {
    &&& values.len() > 0
    &&& values[0].len() >= 8
    &&& forall|i: int| 0 <= i < values.len() ==> #[trigger] values[i].len() >= 8 + get32(values[0], 0)
}

/// The views of a list of byte vectors.
pub open spec fn byte_views(vs: Seq<Vec<u8>>) -> Seq<Seq<u8>> {
    vs.map_values(|v: Vec<u8>| v@)
}

/// The views of a list of properties.
pub open spec fn prop_views(ps: Seq<(u32, Vec<u8>)>) -> Seq<(u32, Seq<u8>)> {
    ps.map_values(|p: (u32, Vec<u8>)| (p.0, p.1@))
}

/// An `Id` POD.
pub open spec fn id_pod(v: u32) -> Seq<u8> {
    prim_pod(SPA_TYPE_ID, le32(v))
}

/// An `Int` POD.
pub open spec fn int_pod(v: i32) -> Seq<u8> {
    prim_pod(SPA_TYPE_INT, le32(i32_bits(v)))
}

/// A `Rectangle` POD.
pub open spec fn rect_pod(w: u32, h: u32) -> Seq<u8> {
    prim_pod(SPA_TYPE_RECTANGLE, le32(w) + le32(h))
}

/// A `Fraction` POD.
pub open spec fn frac_pod(n: u32, d: u32) -> Seq<u8> {
    prim_pod(SPA_TYPE_FRACTION, le32(n) + le32(d))
}

/// A `Choice` POD.
pub open spec fn choice_pod(kind: u32, values: Seq<Seq<u8>>) -> Seq<u8> {
    prim_pod(SPA_TYPE_CHOICE, choice_body(kind, values))
}

/// An `Object` POD.
pub open spec fn object_pod(obj_type: u32, id: u32, props: Seq<(u32, Seq<u8>)>) -> Seq<u8> {
    prim_pod(SPA_TYPE_OBJECT, le32(obj_type) + le32(id) + props_bytes(props))
}

/// The video format we accept: any common RGB layout, any size, any frame rate.
pub open spec fn enum_format_pod() -> Seq<u8> {
    object_pod(
        SPA_TYPE_OBJECT_FORMAT,
        SPA_PARAM_ENUM_FORMAT,
        seq![
            (SPA_FORMAT_MEDIA_TYPE, id_pod(SPA_MEDIA_TYPE_VIDEO)),
            (SPA_FORMAT_MEDIA_SUBTYPE, id_pod(SPA_MEDIA_SUBTYPE_RAW)),
            (
                SPA_FORMAT_VIDEO_FORMAT,
                choice_pod(
                    SPA_CHOICE_ENUM,
                    seq![
                        id_pod(SPA_VIDEO_FORMAT_BGRX),
                        id_pod(SPA_VIDEO_FORMAT_BGRX),
                        id_pod(SPA_VIDEO_FORMAT_RGBX),
                        id_pod(SPA_VIDEO_FORMAT_BGRA),
                        id_pod(SPA_VIDEO_FORMAT_RGBA),
                        id_pod(SPA_VIDEO_FORMAT_RGB),
                        id_pod(SPA_VIDEO_FORMAT_BGR),
                    ],
                ),
            ),
            (
                SPA_FORMAT_VIDEO_SIZE,
                choice_pod(
                    SPA_CHOICE_RANGE,
                    seq![rect_pod(320, 240), rect_pod(1, 1), rect_pod(16384, 16384)],
                ),
            ),
            (
                SPA_FORMAT_VIDEO_FRAMERATE,
                choice_pod(SPA_CHOICE_RANGE, seq![frac_pod(25, 1), frac_pod(0, 1), frac_pod(1000, 1)]),
            ),
        ],
    )
}

/// The metadata size for a `w`x`h` cursor bitmap.
pub open spec fn cursor_meta_size(w: int, h: int) -> i32 {
    (SIZEOF_SPA_META_CURSOR + SIZEOF_SPA_META_BITMAP + w * h * 4) as i32
}

/// The request for cursor metadata on every buffer.
pub open spec fn meta_cursor_pod() -> Seq<u8> {
    object_pod(
        SPA_TYPE_OBJECT_PARAM_META,
        SPA_PARAM_META,
        seq![
            (SPA_PARAM_META_TYPE, id_pod(SPA_META_CURSOR)),
            (
                SPA_PARAM_META_SIZE,
                choice_pod(
                    SPA_CHOICE_RANGE,
                    seq![
                        int_pod(cursor_meta_size(64, 64)),
                        int_pod(cursor_meta_size(1, 1)),
                        int_pod(cursor_meta_size(1024, 1024)),
                    ],
                ),
            ),
        ],
    )
}

/// The first word of a POD is its body's size, and the POD is that body
/// between its header and its padding.
pub proof fn lemma_prim_pod(ty: u32, body: Seq<u8>)
    ensures
        get32(prim_pod(ty, body), 0) == body.len() as u32,
        prim_pod(ty, body).len() == 8 + body.len() + padding(body.len()).len(),
{
    crate::bytes::lemma_get32(Seq::empty(), body.len() as u32, le32(ty) + body + padding(body.len()));
    assert(prim_pod(ty, body) =~= Seq::<u8>::empty() + le32(body.len() as u32) + (le32(ty) + body
        + padding(body.len())));
}

/// Serialises SPA PODs: `{u32 size, u32 type}` headers, bodies padded to 8.
pub struct Pod;

impl Pod {
    fn pad(v: &mut Vec<u8>)
        ensures
            final(v)@ == old(v)@ + padding(old(v)@.len()),
    {
        let ghost n = v@.len();
        while v.len() % 8 != 0
            invariant
                old(v)@.len() == n,
                v@.len() >= n,
                v@.len() - n <= 8,
                v@.len() % 8 != 0 ==> (v@.len() - n) < (8 - n % 8) % 8,
                v@.len() % 8 == 0 ==> v@.len() - n == (8 - n % 8) % 8,
                v@ == old(v)@ + Seq::new((v@.len() - n) as nat, |i: int| 0u8),
            decreases 8 - (v@.len() - n),
        {
            let ghost before = v@;
            v.push(0);
            proof {
                assert(v@ =~= old(v)@ + Seq::new((v@.len() - n) as nat, |i: int| 0u8));
            }
        }
        assert(v@ =~= old(v)@ + padding(n));
    }

    #[verifier::spinoff_prover]
    fn prim(ty: u32, body: &[u8]) -> (r: Vec<u8>)
        ensures
            r@ == prim_pod(ty, body@),
    {
        let mut v: Vec<u8> = Vec::new();
        push_le32(&mut v, body.len() as u32);
        push_le32(&mut v, ty);
        push_all(&mut v, body);
        let ghost before = v@;
        assert(before.len() == 8 + body@.len());
        assert(before.len() % 8 == body@.len() % 8) by {
            assert((8 + body@.len()) % 8 == body@.len() % 8) by (nonlinear_arith);
        }
        Self::pad(&mut v);
        assert(v@ =~= prim_pod(ty, body@));
        v
    }

    pub fn id(v: u32) -> (r: Vec<u8>)
        ensures
            r@ == prim_pod(SPA_TYPE_ID, le32(v)),
    {
        let mut b: Vec<u8> = Vec::new();
        push_le32(&mut b, v);
        assert(b@ =~= le32(v));
        Self::prim(SPA_TYPE_ID, b.as_slice())
    }

    pub fn integer(v: i32) -> (r: Vec<u8>)
        ensures
            r@ == prim_pod(SPA_TYPE_INT, le32(i32_bits(v))),
    {
        let mut b: Vec<u8> = Vec::new();
        push_le32(&mut b, bits_of_i32(v));
        assert(b@ =~= le32(i32_bits(v)));
        Self::prim(SPA_TYPE_INT, b.as_slice())
    }

    pub fn rect(w: u32, h: u32) -> (r: Vec<u8>)
        ensures
            r@ == prim_pod(SPA_TYPE_RECTANGLE, le32(w) + le32(h)),
    {
        let mut b: Vec<u8> = Vec::new();
        push_le32(&mut b, w);
        push_le32(&mut b, h);
        assert(b@ =~= le32(w) + le32(h));
        Self::prim(SPA_TYPE_RECTANGLE, b.as_slice())
    }

    pub fn frac(n: u32, d: u32) -> (r: Vec<u8>)
        ensures
            r@ == prim_pod(SPA_TYPE_FRACTION, le32(n) + le32(d)),
    {
        let mut b: Vec<u8> = Vec::new();
        push_le32(&mut b, n);
        push_le32(&mut b, d);
        assert(b@ =~= le32(n) + le32(d));
        Self::prim(SPA_TYPE_FRACTION, b.as_slice())
    }

    /// Choice over values of one primitive type (each given as a full pod).
    pub fn choice(kind: u32, values: &[Vec<u8>]) -> (r: Vec<u8>)
        requires
            choice_ok(byte_views(values@)),
        ensures
            r@ == prim_pod(SPA_TYPE_CHOICE, choice_body(kind, byte_views(values@))),
    {
        let ghost vs = byte_views(values@);
        assert(vs[0] == values@[0]@);
        let child_size = rd32(values[0].as_slice(), 0);
        let child_type = rd32(values[0].as_slice(), 4);
        let mut body: Vec<u8> = Vec::new();
        push_le32(&mut body, kind);
        push_le32(&mut body, 0);
        push_le32(&mut body, child_size);
        push_le32(&mut body, child_type);
        let ghost head = body@;
        let mut i: usize = 0;
        while i < values.len()
            invariant
                vs == byte_views(values@),
                choice_ok(vs),
                child_size == get32(vs[0], 0),
                i <= values@.len(),
                body@ == head + choice_values(vs.take(i as int), child_size as nat),
            decreases values.len() - i,
        {
            assert(vs[i as int] == values@[i as int]@);
            assert(values@[i as int]@.len() >= 8 + child_size);
            let n = values[i].len();
            assert(8 + child_size <= n);
            let part = slice_subrange(values[i].as_slice(), 8, 8 + child_size as usize);
            push_all(&mut body, part);
            proof {
                assert(vs.take(i as int + 1).drop_last() =~= vs.take(i as int));
                assert(vs.take(i as int + 1).last() == vs[i as int]);
            }
            i = i + 1;
        }
        assert(vs.take(i as int) =~= vs);
        assert(body@ =~= choice_body(kind, vs));
        Self::prim(SPA_TYPE_CHOICE, body.as_slice())
    }

    /// Object with `(key, pod)` properties.
    pub fn object(obj_type: u32, id: u32, props: &[(u32, Vec<u8>)]) -> (r: Vec<u8>)
        ensures
            r@ == prim_pod(SPA_TYPE_OBJECT, le32(obj_type) + le32(id) + props_bytes(prop_views(props@))),
    {
        let ghost ps = prop_views(props@);
        let mut body: Vec<u8> = Vec::new();
        push_le32(&mut body, obj_type);
        push_le32(&mut body, id);
        let ghost head = body@;
        let mut i: usize = 0;
        while i < props.len()
            invariant
                ps == prop_views(props@),
                i <= props@.len(),
                body@ == head + props_bytes(ps.take(i as int)),
            decreases props.len() - i,
        {
            push_le32(&mut body, props[i].0);
            push_le32(&mut body, 0);
            push_all(&mut body, props[i].1.as_slice());
            proof {
                assert(ps.take(i as int + 1).drop_last() =~= ps.take(i as int));
                assert(ps.take(i as int + 1).last() == (props@[i as int].0, props@[i as int].1@));
                assert(body@ =~= head + props_bytes(ps.take(i as int + 1)));
            }
            i = i + 1;
        }
        assert(ps.take(i as int) =~= ps);
        assert(body@ =~= le32(obj_type) + le32(id) + props_bytes(ps));
        Self::prim(SPA_TYPE_OBJECT, body.as_slice())
    }
}

impl Pod {
    /// The video format we are willing to accept: any common RGB layout, any
    /// size, any frame rate.  We never read the pixels.
    pub fn enum_format() -> (r: Vec<u8>)
        ensures
            r@ == enum_format_pod(),
    {
        let mut formats: Vec<Vec<u8>> = Vec::new();
        formats.push(Self::id(SPA_VIDEO_FORMAT_BGRX));
        formats.push(Self::id(SPA_VIDEO_FORMAT_BGRX));
        formats.push(Self::id(SPA_VIDEO_FORMAT_RGBX));
        formats.push(Self::id(SPA_VIDEO_FORMAT_BGRA));
        formats.push(Self::id(SPA_VIDEO_FORMAT_RGBA));
        formats.push(Self::id(SPA_VIDEO_FORMAT_RGB));
        formats.push(Self::id(SPA_VIDEO_FORMAT_BGR));
        let ghost fv = seq![
            id_pod(SPA_VIDEO_FORMAT_BGRX),
            id_pod(SPA_VIDEO_FORMAT_BGRX),
            id_pod(SPA_VIDEO_FORMAT_RGBX),
            id_pod(SPA_VIDEO_FORMAT_BGRA),
            id_pod(SPA_VIDEO_FORMAT_RGBA),
            id_pod(SPA_VIDEO_FORMAT_RGB),
            id_pod(SPA_VIDEO_FORMAT_BGR),
        ];
        assert(byte_views(formats@) =~= fv);
        proof {
            lemma_choice_ok_16(fv, 4);
        }
        let mut sizes: Vec<Vec<u8>> = Vec::new();
        sizes.push(Self::rect(320, 240));
        sizes.push(Self::rect(1, 1));
        sizes.push(Self::rect(16384, 16384));
        let ghost sv = seq![rect_pod(320, 240), rect_pod(1, 1), rect_pod(16384, 16384)];
        assert(byte_views(sizes@) =~= sv);
        proof {
            lemma_choice_ok_16(sv, 8);
        }
        let mut rates: Vec<Vec<u8>> = Vec::new();
        rates.push(Self::frac(25, 1));
        rates.push(Self::frac(0, 1));
        rates.push(Self::frac(1000, 1));
        let ghost rv = seq![frac_pod(25, 1), frac_pod(0, 1), frac_pod(1000, 1)];
        assert(byte_views(rates@) =~= rv);
        proof {
            lemma_choice_ok_16(rv, 8);
        }
        let mut props: Vec<(u32, Vec<u8>)> = Vec::new();
        props.push((SPA_FORMAT_MEDIA_TYPE, Self::id(SPA_MEDIA_TYPE_VIDEO)));
        props.push((SPA_FORMAT_MEDIA_SUBTYPE, Self::id(SPA_MEDIA_SUBTYPE_RAW)));
        props.push((SPA_FORMAT_VIDEO_FORMAT, Self::choice(SPA_CHOICE_ENUM, formats.as_slice())));
        props.push((SPA_FORMAT_VIDEO_SIZE, Self::choice(SPA_CHOICE_RANGE, sizes.as_slice())));
        props.push((SPA_FORMAT_VIDEO_FRAMERATE, Self::choice(SPA_CHOICE_RANGE, rates.as_slice())));
        let r = Self::object(SPA_TYPE_OBJECT_FORMAT, SPA_PARAM_ENUM_FORMAT, props.as_slice());
        assert(prop_views(props@) =~= seq![
            (SPA_FORMAT_MEDIA_TYPE, id_pod(SPA_MEDIA_TYPE_VIDEO)),
            (SPA_FORMAT_MEDIA_SUBTYPE, id_pod(SPA_MEDIA_SUBTYPE_RAW)),
            (SPA_FORMAT_VIDEO_FORMAT, choice_pod(SPA_CHOICE_ENUM, fv)),
            (SPA_FORMAT_VIDEO_SIZE, choice_pod(SPA_CHOICE_RANGE, sv)),
            (SPA_FORMAT_VIDEO_FRAMERATE, choice_pod(SPA_CHOICE_RANGE, rv)),
        ]);
        r
    }

    /// Ask the producer to attach cursor metadata to every buffer.
    pub fn meta_cursor() -> (r: Vec<u8>)
        ensures
            r@ == meta_cursor_pod(),
    {
        let mut sizes: Vec<Vec<u8>> = Vec::new();
        sizes.push(Self::integer(16432));
        sizes.push(Self::integer(52));
        sizes.push(Self::integer(4194352));
        let ghost sv = seq![
            int_pod(cursor_meta_size(64, 64)),
            int_pod(cursor_meta_size(1, 1)),
            int_pod(cursor_meta_size(1024, 1024)),
        ];
        assert(byte_views(sizes@) =~= sv);
        proof {
            lemma_choice_ok_16(sv, 4);
        }
        let mut props: Vec<(u32, Vec<u8>)> = Vec::new();
        props.push((SPA_PARAM_META_TYPE, Self::id(SPA_META_CURSOR)));
        props.push((SPA_PARAM_META_SIZE, Self::choice(SPA_CHOICE_RANGE, sizes.as_slice())));
        let r = Self::object(SPA_TYPE_OBJECT_PARAM_META, SPA_PARAM_META, props.as_slice());
        assert(prop_views(props@) =~= seq![
            (SPA_PARAM_META_TYPE, id_pod(SPA_META_CURSOR)),
            (SPA_PARAM_META_SIZE, choice_pod(SPA_CHOICE_RANGE, sv)),
        ]);
        r
    }
}

/// `n` rounded up to a multiple of 8.
pub open spec fn round8(n: nat) -> nat {
    ((n + 7) / 8) * 8
}

/// The video size of the first `SPA_FORMAT_VIDEO_SIZE` property at or after
/// `p`, the object ending at `end`; a choice stands for its first value.
pub open spec fn size_from(b: Seq<u8>, p: int, end: int) -> Option<(u32, u32)>
    decreases end - p,
{
    if p < 0 || p + 16 > end || end > b.len() {
        None
    } else {
        let key = get32(b, p);
        let vsize = get32(b, p + 8);
        let vtype = get32(b, p + 12);
        let choice = vtype == SPA_TYPE_CHOICE && vsize >= 16;
        if choice && p + 32 > b.len() {
            None
        } else {
            let val = if choice {
                p + 32
            } else {
                p + 16
            };
            let val_type = if choice {
                get32(b, p + 28)
            } else {
                vtype
            };
            if key == SPA_FORMAT_VIDEO_SIZE && val_type == SPA_TYPE_RECTANGLE {
                if val + 8 <= b.len() {
                    Some((get32(b, val), get32(b, val + 4)))
                } else {
                    None
                }
            } else if p + 16 + round8(vsize as nat) > end {
                None
            } else {
                size_from(b, p + 16 + round8(vsize as nat), end)
            }
        }
    }
}

/// `SPA_FORMAT_VIDEO_size` of a Format object, reading only inside `b`.
pub open spec fn format_size_of(b: Seq<u8>) -> Option<(u32, u32)> {
    if b.len() < 8 || get32(b, 4) != SPA_TYPE_OBJECT || get32(b, 0) < 8 {
        None
    } else {
        let end = if 8 + get32(b, 0) < b.len() {
            8 + get32(b, 0)
        } else {
            b.len() as int
        };
        size_from(b, 16, end)
    }
}

impl Pod {
    /// Read `SPA_FORMAT_VIDEO_size` out of a negotiated Format object.  Only
    /// bytes of `pod` are read: where its sizes point past its end, no size
    /// is found.
    pub fn format_size(pod: &[u8]) -> (r: Option<(u32, u32)>)
        ensures
            r == format_size_of(pod@),
    {
        if pod.len() < 8 {
            return None;
        }
        let size = rd32(pod, 0) as usize;
        if rd32(pod, 4) != SPA_TYPE_OBJECT || size < 8 {
            return None;
        }
        let end: usize = if size < pod.len() - 8 {
            8 + size
        } else {
            pod.len()
        };
        let mut p: usize = 16;
        while p <= end && end - p >= 16
            invariant
                end <= pod@.len(),
                format_size_of(pod@) == size_from(pod@, p as int, end as int),
            decreases end - p,
        {
            let key = rd32(pod, p);
            let vsize = rd32(pod, p + 8);
            let vtype = rd32(pod, p + 12);
            let choice = vtype == SPA_TYPE_CHOICE && vsize >= 16;
            if choice && pod.len() - p < 32 {
                return None;
            }
            let val: usize = if choice {
                p + 32
            } else {
                p + 16
            };
            let val_type = if choice {
                rd32(pod, p + 28)
            } else {
                vtype
            };
            if key == SPA_FORMAT_VIDEO_SIZE && val_type == SPA_TYPE_RECTANGLE {
                if pod.len() - val >= 8 {
                    return Some((rd32(pod, val), rd32(pod, val + 4)));
                }
                return None;
            }
            let step = 16 + (vsize as u64 + 7) / 8 * 8;
            if step > (end - p) as u64 {
                assert(size_from(pod@, p + step, end as int) is None);
                return None;
            }
            p = p + step as usize;
        }
        assert(size_from(pod@, p as int, end as int) is None);
        None
    }
}

/// Value PODs whose bodies are `k <= 8` bytes are all 16 bytes long, which a
/// choice over them needs.
proof fn lemma_choice_ok_16(vs: Seq<Seq<u8>>, k: nat)
    requires
        vs.len() > 0,
        k <= 8,
        forall|i: int| 0 <= i < vs.len() ==> exists|ty: u32, body: Seq<u8>|
            body.len() == k && #[trigger] vs[i] == prim_pod(ty, body),
    ensures
        choice_ok(vs),
{
    assert forall|i: int| 0 <= i < vs.len() implies #[trigger] vs[i].len() == 8 + k + (8 - k % 8) % 8
        && get32(vs[i], 0) == k by {
        let (ty, body) = choose|ty: u32, body: Seq<u8>| body.len() == k && vs[i] == prim_pod(ty, body);
        lemma_prim_pod(ty, body);
    }
    assert(get32(vs[0], 0) == k);
}

} // verus!
