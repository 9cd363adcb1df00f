//! Text as sequences of characters: the conversions between `&str`,
//! `Vec<char>` and `String` that the script parser and renderer need, and
//! the character classes they use.

use vstd::prelude::*;
use vstd::utf8::{decode_utf8, encode_scalar, encode_utf8, valid_utf8};

verus! {

/// The characters of `s`, in order.
pub fn chars_of(s: &str) -> (v: Vec<char>)
    ensures
        v@ == s@,
{
    let mut v: Vec<char> = Vec::new();
    for c in it: s.chars()
        invariant
            v@ == it.seq().take(it.index() as int),
            it.seq() == s@,
    {
        v.push(c);
    }
    v
}

/// Encoding one more character appends its scalar's encoding.
pub proof fn lemma_encode_push(s: Seq<char>, c: char)
    ensures
        encode_utf8(s.push(c)) == encode_utf8(s) + encode_scalar(c as u32),
    decreases s.len(),
{
    let t = s.push(c);
    if s.len() == 0 {
        assert(t.drop_first() =~= Seq::<char>::empty());
        assert(encode_utf8(t) == encode_scalar(t[0] as u32) + encode_utf8(t.drop_first()));
        assert(encode_utf8(t) =~= encode_utf8(s) + encode_scalar(c as u32));
    } else {
        lemma_encode_push(s.drop_first(), c);
        assert(t.drop_first() =~= s.drop_first().push(c));
        assert(t[0] == s[0]);
        assert(encode_utf8(t) == encode_scalar(s[0] as u32) + encode_utf8(s.drop_first().push(c)));
        assert(encode_utf8(t) =~= encode_utf8(s) + encode_scalar(c as u32));
    }
}

/// Append the UTF-8 encoding of `c`.
pub fn push_utf8(out: &mut Vec<u8>, c: char)
    ensures
        final(out)@ == old(out)@ + encode_scalar(c as u32),
{
    let u = c as u32;
    if u <= 0x7F {
        out.push((u & 0x7F) as u8);
    } else if u <= 0x7FF {
        out.push(0xC0 | ((u >> 6) & 0x1F) as u8);
        out.push(0x80 | (u & 0x3F) as u8);
    } else if u <= 0xFFFF {
        out.push(0xE0 | ((u >> 12) & 0x0F) as u8);
        out.push(0x80 | ((u >> 6) & 0x3F) as u8);
        out.push(0x80 | (u & 0x3F) as u8);
    } else {
        out.push(0xF0 | ((u >> 18) & 0x7) as u8);
        out.push(0x80 | ((u >> 12) & 0x3F) as u8);
        out.push(0x80 | ((u >> 6) & 0x3F) as u8);
        out.push(0x80 | (u & 0x3F) as u8);
    }
    assert(final(out)@ =~= old(out)@ + encode_scalar(c as u32));
}

/// `std::str::from_utf8`: bytes that are valid UTF-8 are that text; other
/// bytes are refused.
#[verifier::external_body]
pub(crate) fn str_from_utf8(b: &[u8]) -> (r: Option<&str>)
    ensures
        r is Some <==> valid_utf8(b@),
        r matches Some(s) ==> s@ == decode_utf8(b@),
{
    std::str::from_utf8(b).ok()
}

/// The string made of the characters `cs`.
pub fn string_of(cs: &[char]) -> (s: String)
    ensures
        s@ == cs@,
{
    let mut bytes: Vec<u8> = Vec::new();
    let mut i: usize = 0;
    while i < cs.len()
        invariant
            i <= cs@.len(),
            bytes@ == encode_utf8(cs@.take(i as int)),
        decreases cs.len() - i,
    {
        push_utf8(&mut bytes, cs[i]);
        proof {
            lemma_encode_push(cs@.take(i as int), cs@[i as int]);
            assert(cs@.take(i as int).push(cs@[i as int]) =~= cs@.take(i as int + 1));
        }
        i = i + 1;
    }
    assert(cs@.take(i as int) =~= cs@);
    proof {
        vstd::utf8::encode_utf8_valid_utf8(cs@);
        vstd::utf8::encode_utf8_decode_utf8(cs@);
    }
    match str_from_utf8(bytes.as_slice()) {
        Some(t) => String::from_str(t),
        None => String::new(),
    }
}

/// `char::is_whitespace`: the characters with the Unicode `White_Space`
/// property.
pub open spec fn white_space(c: char) -> bool {
    ||| '\u{9}' <= c <= '\u{d}'
    ||| c == ' '
    ||| c == '\u{85}'
    ||| c == '\u{a0}'
    ||| c == '\u{1680}'
    ||| '\u{2000}' <= c <= '\u{200a}'
    ||| c == '\u{2028}'
    ||| c == '\u{2029}'
    ||| c == '\u{202f}'
    ||| c == '\u{205f}'
    ||| c == '\u{3000}'
}

pub fn is_white_space(c: char) -> (r: bool)
    ensures
        r == white_space(c),
{
    ('\u{9}' <= c && c <= '\u{d}') || c == ' ' || c == '\u{85}' || c == '\u{a0}' || c == '\u{1680}'
        || ('\u{2000}' <= c && c <= '\u{200a}') || c == '\u{2028}' || c == '\u{2029}' || c
        == '\u{202f}' || c == '\u{205f}' || c == '\u{3000}'
}

/// `char::to_ascii_uppercase`.
pub open spec fn upper(c: char) -> char {
    if 'a' <= c <= 'z' {
        (c as u32 - 32) as char
    } else {
        c
    }
}

/// `char::to_ascii_lowercase`.
pub open spec fn lower(c: char) -> char {
    if 'A' <= c <= 'Z' {
        (c as u32 + 32) as char
    } else {
        c
    }
}

/// `str::to_ascii_uppercase` on characters.
pub open spec fn upper_all(s: Seq<char>) -> Seq<char> {
    s.map_values(|c: char| upper(c))
}

/// `str::to_ascii_lowercase` on characters.
pub open spec fn lower_all(s: Seq<char>) -> Seq<char> {
    s.map_values(|c: char| lower(c))
}

pub fn to_upper(c: char) -> (r: char)
    ensures
        r == upper(c),
{
    if 'a' <= c && c <= 'z' {
        ((c as u8) - 32) as char
    } else {
        c
    }
}

pub fn to_lower(c: char) -> (r: char)
    ensures
        r == lower(c),
{
    if 'A' <= c && c <= 'Z' {
        ((c as u8) + 32) as char
    } else {
        c
    }
}

/// The characters of `s` in ASCII upper case.
pub fn upper_vec(s: &[char]) -> (r: Vec<char>)
    ensures
        r@ == upper_all(s@),
{
    let mut r: Vec<char> = Vec::new();
    let mut i: usize = 0;
    while i < s.len()
        invariant
            i <= s@.len(),
            r@ == upper_all(s@.take(i as int)),
        decreases s.len() - i,
    {
        r.push(to_upper(s[i]));
        proof {
            assert(upper_all(s@.take(i as int + 1)) =~= upper_all(s@.take(i as int)).push(upper(s@[i as int])));
        }
        i = i + 1;
    }
    assert(s@.take(i as int) =~= s@);
    r
}

/// The characters of `s` in ASCII lower case.
pub fn lower_vec(s: &[char]) -> (r: Vec<char>)
    ensures
        r@ == lower_all(s@),
{
    let mut r: Vec<char> = Vec::new();
    let mut i: usize = 0;
    while i < s.len()
        invariant
            i <= s@.len(),
            r@ == lower_all(s@.take(i as int)),
        decreases s.len() - i,
    {
        r.push(to_lower(s[i]));
        proof {
            assert(lower_all(s@.take(i as int + 1)) =~= lower_all(s@.take(i as int)).push(lower(s@[i as int])));
        }
        i = i + 1;
    }
    assert(s@.take(i as int) =~= s@);
    r
}

/// Whether two character sequences are equal.
pub fn same_chars(a: &[char], b: &[char]) -> (r: bool)
    ensures
        r == (a@ == b@),
{
    if a.len() != b.len() {
        return false;
    }
    let mut i: usize = 0;
    while i < a.len()
        invariant
            a@.len() == b@.len(),
            i <= a@.len(),
            forall|j: int| 0 <= j < i ==> a@[j] == b@[j],
        decreases a.len() - i,
    {
        if a[i] != b[i] {
            return false;
        }
        i = i + 1;
    }
    assert(a@ =~= b@);
    true
}

/// Whether the characters `a` spell `b`.
pub fn spells(a: &[char], b: &str) -> (r: bool)
    ensures
        r == (a@ == b@),
{
    let v = chars_of(b);
    same_chars(a, v.as_slice())
}

} // verus!
