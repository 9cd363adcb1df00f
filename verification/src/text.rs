//! Human-editable script form of a macro.
//!
//! ```text
//! # comment
//! screen 1920x1080
//! repeat 1
//! speed 100
//! move 100 200          # absolute, recorded-screen pixels
//! wait 50ms             # also: 300us, 1.5s, or a bare number of microseconds
//! click left            # buttondown + buttonup
//! buttondown right
//! buttonup right
//! key KEY_A             # keydown + keyup
//! keydown leftshift
//! keyup KEY_LEFTSHIFT
//! moverel -5 7
//! scroll 0 120          # 1/120 of a notch; +y = down, +x = right
//! scroll down 2         # whole notches: up/down/left/right N
//! ```

use crate::chars::{chars_of, is_white_space, lower_all, lower_vec, spells, string_of, white_space};
use crate::format::{Event, EventType, Header, Macro, SCROLL_NOTCH};
use crate::format::total_delay;
use crate::keys::{
    button_code_chars, button_code_of, button_name, button_name_of, code_pos, key_code_chars,
    key_code_of, key_name, KEYS,
};
use crate::num::{
    all_digits, append_dec, append_dec_i64, dec, dec_int, digit_of, digits_value, is_digit,
    parse_i32, parse_unsigned, signed_value, unsigned_value,
};
use crate::Error;
use vstd::string::*;
use vstd::prelude::*;
use vstd::slice::slice_subrange;

verus! {

// ---- lines and words ------------------------------------------------------

/// Index of the first `'\n'` at or after `i`, or the length of `s`.
pub open spec fn line_end(s: Seq<char>, i: int) -> int
    decreases s.len() - i,
{
    if i >= s.len() {
        s.len() as int
    } else if s[i] == '\n' {
        i
    } else {
        line_end(s, i + 1)
    }
}

pub proof fn lemma_line_end(s: Seq<char>, i: int)
    requires
        0 <= i,
    ensures
        i <= s.len() ==> i <= line_end(s, i) <= s.len(),
        line_end(s, i) < s.len() ==> s[line_end(s, i)] == '\n',
        forall|j: int| i <= j < line_end(s, i) ==> s[j] != '\n',
    decreases s.len() - i,
{
    if i < s.len() && s[i] != '\n' {
        lemma_line_end(s, i + 1);
    }
}

/// The line that starts at `i` and ends at `e`, without its line ending.
pub open spec fn line_at(s: Seq<char>, i: int, e: int) -> Seq<char> {
    let piece = s.subrange(i, e);
    if e < s.len() && piece.len() > 0 && piece.last() == '\r' {
        piece.drop_last()
    } else {
        piece
    }
}

/// `str::lines` from index `i` on: split at `'\n'`, a `'\r'` before it
/// dropped, no empty line after a final line ending.
pub open spec fn lines_from(s: Seq<char>, i: int) -> Seq<Seq<char>>
    decreases s.len() + 1 - i,
{
    if i < 0 || i >= s.len() {
        seq![]
    } else {
        let e = line_end(s, i);
        proof {
            lemma_line_end(s, i);
        }
        seq![line_at(s, i, e)] + lines_from(s, e + 1)
    }
}

/// `str::lines`.
pub open spec fn lines_of(s: Seq<char>) -> Seq<Seq<char>> {
    lines_from(s, 0)
}

/// Index of the first white space at or after `i`, or the length of `s`.
pub open spec fn word_end(s: Seq<char>, i: int) -> int
    decreases s.len() - i,
{
    if i >= s.len() || white_space(s[i]) {
        i
    } else {
        word_end(s, i + 1)
    }
}

pub proof fn lemma_word_end(s: Seq<char>, i: int)
    requires
        0 <= i <= s.len(),
    ensures
        i <= word_end(s, i) <= s.len(),
        i < s.len() && !white_space(s[i]) ==> i < word_end(s, i),
        word_end(s, i) < s.len() ==> white_space(s[word_end(s, i)]),
        forall|j: int| i <= j < word_end(s, i) ==> !white_space(s[j]),
    decreases s.len() - i,
{
    if i < s.len() && !white_space(s[i]) {
        lemma_word_end(s, i + 1);
    }
}

/// `str::split_whitespace` from index `i` on.
pub open spec fn words_from(s: Seq<char>, i: int) -> Seq<Seq<char>>
    decreases s.len() - i,
{
    if i < 0 || i >= s.len() {
        seq![]
    } else if white_space(s[i]) {
        words_from(s, i + 1)
    } else {
        let e = word_end(s, i);
        proof {
            lemma_word_end(s, i);
        }
        seq![s.subrange(i, e)] + words_from(s, e)
    }
}

/// No character of `w` is white space.
pub open spec fn solid(w: Seq<char>) -> bool {
    forall|i: int| 0 <= i < w.len() ==> !white_space(#[trigger] w[i])
}

proof fn lemma_word_end_shift(p: Seq<char>, q: Seq<char>, j: int)
    requires
        0 <= j <= q.len(),
    ensures
        word_end(p + q, p.len() + j) == p.len() + word_end(q, j),
    decreases q.len() - j,
{
    if j < q.len() {
        assert((p + q)[p.len() + j] == q[j]);
        if !white_space(q[j]) {
            lemma_word_end_shift(p, q, j + 1);
        }
    }
}

/// Splitting words after a prefix is splitting the rest.
pub proof fn lemma_words_shift(p: Seq<char>, q: Seq<char>, j: int)
    requires
        0 <= j <= q.len(),
    ensures
        words_from(p + q, p.len() + j) == words_from(q, j),
    decreases q.len() - j,
{
    if j < q.len() {
        assert((p + q)[p.len() + j] == q[j]);
        if white_space(q[j]) {
            lemma_words_shift(p, q, j + 1);
        } else {
            lemma_word_end_shift(p, q, j);
            lemma_word_end(q, j);
            let e = word_end(q, j);
            assert((p + q).subrange(p.len() + j, p.len() + e) =~= q.subrange(j, e));
            lemma_words_shift(p, q, e);
        }
    }
}

/// Where a run of solid characters ends.
proof fn lemma_word_end_solid(s: Seq<char>, w: Seq<char>, i: int)
    requires
        0 <= i <= w.len(),
        w.len() <= s.len(),
        s.take(w.len() as int) == w,
        solid(w),
        w.len() < s.len() ==> white_space(s[w.len() as int]),
    ensures
        word_end(s, i) == w.len(),
    decreases w.len() - i,
{
    if i < w.len() {
        assert(s[i] == w[i]);
        lemma_word_end_solid(s, w, i + 1);
    }
}

/// A solid word followed by a space and more text splits into that word
/// and the words of the rest.
pub proof fn lemma_words_cons(w: Seq<char>, rest: Seq<char>)
    requires
        w.len() > 0,
        solid(w),
    ensures
        words_from(w + seq![' '] + rest, 0) == seq![w] + words_from(rest, 0),
{
    let s = w + seq![' '] + rest;
    assert(s.take(w.len() as int) =~= w);
    assert(s[w.len() as int] == ' ');
    assert(!white_space(s[0])) by {
        assert(s[0] == w[0]);
    }
    lemma_word_end_solid(s, w, 0);
    assert(s.subrange(0, w.len() as int) =~= w);
    assert(white_space(s[w.len() as int]));
    assert(s =~= (w + seq![' ']) + rest);
    lemma_words_shift(w + seq![' '], rest, 0);
    assert(words_from(s, w.len() as int) == words_from(s, w.len() as int + 1));
    assert(words_from(s, 0) == seq![w] + words_from(s, w.len() as int));
}

/// A solid word alone is one word.
pub proof fn lemma_words_one(w: Seq<char>)
    requires
        w.len() > 0,
        solid(w),
    ensures
        words_from(w, 0) == seq![w],
{
    assert(w.take(w.len() as int) =~= w);
    assert(!white_space(w[0]));
    lemma_word_end_solid(w, w, 0);
    assert(w.subrange(0, w.len() as int) =~= w);
    assert(words_from(w, w.len() as int) == Seq::<Seq<char>>::empty());
    assert(seq![w] + Seq::<Seq<char>>::empty() =~= seq![w]);
}

/// Index of the first `'#'` at or after `i`, or the length of `s`.
pub open spec fn hash_from(s: Seq<char>, i: int) -> int
    decreases s.len() - i,
{
    if i >= s.len() {
        s.len() as int
    } else if s[i] == '#' {
        i
    } else {
        hash_from(s, i + 1)
    }
}

/// Index of the first `'#'` in `s`, or its length.
pub open spec fn hash_pos(s: Seq<char>) -> int {
    hash_from(s, 0)
}

/// The words of a script line: those before its first `#`.
pub open spec fn line_words(line: Seq<char>) -> Seq<Seq<char>> {
    words_from(line.take(hash_pos(line)), 0)
}

// ---- exec side of splitting ----------------------------------------------

pub fn find_line_end(s: &[char], i: usize) -> (e: usize)
    requires
        i <= s@.len(),
    ensures
        e == line_end(s@, i as int),
{
    let mut j = i;
    while j < s.len() && s[j] != '\n'
        invariant
            i <= j <= s@.len(),
            line_end(s@, i as int) == line_end(s@, j as int),
        decreases s.len() - j,
    {
        j = j + 1;
    }
    j
}

fn find_word_end(s: &[char], i: usize) -> (e: usize)
    requires
        i <= s@.len(),
    ensures
        e == word_end(s@, i as int),
{
    let mut j = i;
    while j < s.len() && !is_white_space(s[j])
        invariant
            i <= j <= s@.len(),
            word_end(s@, i as int) == word_end(s@, j as int),
        decreases s.len() - j,
    {
        j = j + 1;
    }
    j
}

/// The characters of `s` before its first `#`.
fn before_hash(s: &[char]) -> (r: &[char])
    ensures
        r@ == s@.take(hash_pos(s@)),
{
    let mut j: usize = 0;
    while j < s.len() && s[j] != '#'
        invariant
            j <= s@.len(),
            hash_from(s@, 0) == hash_from(s@, j as int),
        decreases s.len() - j,
    {
        j = j + 1;
    }
    slice_subrange(s, 0, j)
}

/// The character views of a list of words.
pub open spec fn views(ws: Seq<Vec<char>>) -> Seq<Seq<char>> {
    ws.map_values(|w: Vec<char>| w@)
}

/// `str::split_whitespace`.
pub fn split_words(s: &[char]) -> (ws: Vec<Vec<char>>)
    ensures
        views(ws@) == words_from(s@, 0),
{
    let mut ws: Vec<Vec<char>> = Vec::new();
    let mut i: usize = 0;
    while i < s.len()
        invariant
            i <= s@.len(),
            views(ws@) + words_from(s@, i as int) == words_from(s@, 0),
        decreases s.len() - i,
    {
        if is_white_space(s[i]) {
            i = i + 1;
        } else {
            let e = find_word_end(s, i);
            proof {
                lemma_word_end(s@, i as int);
            }
            let w = vstd::slice::slice_to_vec(slice_subrange(s, i, e));
            let ghost old_ws = ws@;
            ws.push(w);
            proof {
                assert(views(ws@) =~= views(old_ws).push(s@.subrange(i as int, e as int)));
                assert(views(ws@) + words_from(s@, e as int) =~= views(old_ws) + (seq![
                    s@.subrange(i as int, e as int),
                ] + words_from(s@, e as int)));
            }
            i = e;
        }
    }
    assert(views(ws@) + words_from(s@, i as int) =~= views(ws@));
    ws
}

/// The words of one script line.
pub fn words_of_line(line: &[char]) -> (ws: Vec<Vec<char>>)
    ensures
        views(ws@) == line_words(line@),
{
    split_words(before_hash(line))
}

// ---- durations ------------------------------------------------------------

/// `char::is_ascii_alphabetic`.
pub open spec fn alpha(c: char) -> bool {
    ('a' <= c <= 'z') || ('A' <= c <= 'Z')
}

/// Index of the first ASCII letter at or after `i`, or the length of `s`.
pub open spec fn alpha_from(s: Seq<char>, i: int) -> int
    decreases s.len() - i,
{
    if i >= s.len() {
        s.len() as int
    } else if alpha(s[i]) {
        i
    } else {
        alpha_from(s, i + 1)
    }
}

/// Index of the first character at or after `i` that is not white space,
/// or the length of `s`.
pub open spec fn lead(s: Seq<char>, i: int) -> int
    decreases s.len() - i,
{
    if i >= s.len() {
        s.len() as int
    } else if !white_space(s[i]) {
        i
    } else {
        lead(s, i + 1)
    }
}

/// One past the last character before `j` that is not white space, or 0.
pub open spec fn tail(s: Seq<char>, j: int) -> int
    decreases j,
{
    if j <= 0 {
        0
    } else if !white_space(s[j - 1]) {
        j
    } else {
        tail(s, j - 1)
    }
}

/// `str::trim`.
pub open spec fn trim(s: Seq<char>) -> Seq<char> {
    if lead(s, 0) >= s.len() {
        seq![]
    } else {
        s.subrange(lead(s, 0), tail(s, s.len() as int))
    }
}

proof fn lemma_lead(s: Seq<char>, i: int)
    requires
        0 <= i <= s.len(),
    ensures
        i <= lead(s, i) <= s.len(),
        lead(s, i) < s.len() ==> !white_space(s[lead(s, i)]),
    decreases s.len() - i,
{
    if i < s.len() && white_space(s[i]) {
        lemma_lead(s, i + 1);
    }
}

proof fn lemma_tail(s: Seq<char>, j: int, k: int)
    requires
        0 <= k < j <= s.len(),
        !white_space(s[k]),
    ensures
        k < tail(s, j) <= j,
    decreases j,
{
    if white_space(s[j - 1]) {
        lemma_tail(s, j - 1, k);
    }
}

/// `str::trim` on characters.
pub fn trim_chars(s: &[char]) -> (r: &[char])
    ensures
        r@ == trim(s@),
{
    let mut i: usize = 0;
    while i < s.len() && is_white_space(s[i])
        invariant
            i <= s@.len(),
            lead(s@, 0) == lead(s@, i as int),
        decreases s.len() - i,
    {
        i = i + 1;
    }
    if i == s.len() {
        return slice_subrange(s, 0, 0);
    }
    let mut j: usize = s.len();
    while j > i && is_white_space(s[j - 1])
        invariant
            i < j <= s@.len(),
            !white_space(s@[i as int]),
            tail(s@, s@.len() as int) == tail(s@, j as int),
        decreases j,
    {
        j = j - 1;
    }
    slice_subrange(s, i, j)
}

/// `10^k`.
pub open spec fn pow10(k: nat) -> nat
    decreases k,
{
    if k == 0 {
        1
    } else {
        10 * pow10((k - 1) as nat)
    }
}

/// The leading digit of a run of digits weighs `10^(len - 1)`.
pub proof fn lemma_digits_front(ds: Seq<char>)
    requires
        ds.len() > 0,
    ensures
        digits_value(ds) == digit_of(ds[0]) * pow10((ds.len() - 1) as nat) + digits_value(
            ds.drop_first(),
        ),
    decreases ds.len(),
{
    if ds.len() > 1 {
        let a = ds.drop_last();
        lemma_digits_front(a);
        assert(ds.drop_first().drop_last() =~= a.drop_first());
        assert(ds.drop_first().last() == ds.last());
        let d0 = digit_of(ds[0]);
        assert(a[0] == ds[0]);
        let p = pow10((a.len() - 1) as nat);
        let v = digits_value(a.drop_first());
        let l = digit_of(ds.last());
        assert(digits_value(ds) == digits_value(a) * 10 + l);
        assert(digits_value(ds.drop_first()) == v * 10 + l);
        assert(pow10((ds.len() - 1) as nat) == 10 * p);
        assert(digits_value(a) == d0 * p + v);
        assert((d0 * p + v) * 10 == d0 * (10 * p) + v * 10) by (nonlinear_arith);
        assert(digits_value(ds) == d0 * (10 * p) + v * 10 + l);
        assert(d0 * pow10((ds.len() - 1) as nat) == d0 * (10 * p));
    } else {
        assert(ds.drop_first().len() == 0);
        assert(ds.drop_last().len() == 0);
        assert(digits_value(ds.drop_last()) == 0);
        assert(digits_value(ds.drop_first()) == 0);
        assert(ds.last() == ds[0]);
        assert(pow10(0) == 1);
        assert(digits_value(ds) == digit_of(ds[0]));
        assert(digit_of(ds[0]) * pow10((ds.len() - 1) as nat) == digit_of(ds[0])) by (nonlinear_arith)
            requires
                pow10((ds.len() - 1) as nat) == 1,
        ;
    }
}

/// A run of digits spells less than `10^len`.
pub proof fn lemma_digits_bound(ds: Seq<char>)
    requires
        all_digits(ds),
    ensures
        digits_value(ds) < pow10(ds.len()),
    decreases ds.len(),
{
    if ds.len() > 0 {
        let a = ds.drop_last();
        assert(all_digits(a)) by {
            assert forall|i: int| 0 <= i < a.len() implies #[trigger] is_digit(a[i]) by {
                assert(is_digit(ds[i]));
            }
        }
        lemma_digits_bound(a);
        assert(is_digit(ds[ds.len() - 1]));
        assert(digits_value(a) * 10 + 9 < pow10(ds.len())) by (nonlinear_arith)
            requires
                digits_value(a) < pow10(a.len()),
                pow10(ds.len()) == 10 * pow10(a.len()),
        ;
    }
}

/// `floor(c * 0.ds)`, the whole part of `c` times the fraction whose
/// decimal digits are `ds`.
pub open spec fn frac_floor(c: nat, ds: Seq<char>) -> nat {
    (c * digits_value(ds)) / pow10(ds.len())
}

/// `c * 0.ds` is a whole number.
pub open spec fn frac_exact(c: nat, ds: Seq<char>) -> bool {
    (c * digits_value(ds)) % pow10(ds.len()) == 0
}

/// Peeling the first digit off a fraction: the whole part and exactness of
/// `c * 0.ds` follow from those of the rest.
pub proof fn lemma_frac_step(c: nat, ds: Seq<char>)
    requires
        ds.len() > 0,
        all_digits(ds),
    ensures
        frac_floor(c, ds) == (c * digit_of(ds[0]) + frac_floor(c, ds.drop_first())) / 10,
        frac_exact(c, ds) == (frac_exact(c, ds.drop_first()) && (c * digit_of(ds[0]) + frac_floor(
            c,
            ds.drop_first(),
        )) % 10 == 0),
{
    let rest = ds.drop_first();
    let p = pow10(rest.len());
    let rv = digits_value(rest);
    let d = digit_of(ds[0]);
    lemma_digits_front(ds);
    assert(pow10(ds.len()) == 10 * p);
    assert(p > 0) by {
        lemma_pow10_pos(rest.len());
    }
    let q = (c * rv) / p;
    let r = (c * rv) % p;
    assert(c * rv == q * p + r && 0 <= r < p) by (nonlinear_arith)
        requires
            p > 0,
            q == (c * rv) / p,
            r == (c * rv) % p,
    ;
    let m = c * d + q;
    let a = m / 10;
    let b = m % 10;
    assert(m == a * 10 + b && 0 <= b < 10) by (nonlinear_arith)
        requires
            a == m / 10,
            b == m % 10,
            m >= 0,
    ;
    let x = c * digits_value(ds);
    assert(x == a * (10 * p) + (b * p + r)) by (nonlinear_arith)
        requires
            x == c * (d * p + rv),
            c * rv == q * p + r,
            m == c * d + q,
            m == a * 10 + b,
    ;
    assert(0 <= b * p + r < 10 * p) by (nonlinear_arith)
        requires
            0 <= b < 10,
            0 <= r < p,
    ;
    vstd::arithmetic::div_mod::lemma_fundamental_div_mod_converse(
        x as int,
        (10 * p) as int,
        a as int,
        (b * p + r) as int,
    );
    assert(b * p + r == 0 <==> (b == 0 && r == 0)) by (nonlinear_arith)
        requires
            0 <= b,
            0 <= r,
            p > 0,
    ;
}

pub proof fn lemma_pow10_pos(k: nat)
    ensures
        pow10(k) > 0,
    decreases k,
{
    if k > 0 {
        lemma_pow10_pos((k - 1) as nat);
    }
}

/// The microseconds in one unit of a duration: `us`, `ms`, `s`, `m` or `min`.
pub open spec fn unit_us(u: Seq<char>) -> Option<nat> {
    if u == "us"@ || u == "µs"@ {
        Some(1)
    } else if u == "ms"@ {
        Some(1000)
    } else if u == "s"@ {
        Some(1_000_000)
    } else if u == "m"@ || u == "min"@ {
        Some(60_000_000)
    } else {
        None
    }
}

/// The number of a duration without its sign.
pub open spec fn unsigned_part(t: Seq<char>) -> Seq<char> {
    if t.len() > 0 && (t[0] == '+' || t[0] == '-') {
        t.drop_first()
    } else {
        t
    }
}

/// Index of the first `'.'` at or after `i`, or the length of `s`.
pub open spec fn dot_from(s: Seq<char>, i: int) -> int
    decreases s.len() - i,
{
    if i >= s.len() {
        s.len() as int
    } else if s[i] == '.' {
        i
    } else {
        dot_from(s, i + 1)
    }
}

/// The digits before the decimal point.
pub open spec fn int_digits(t: Seq<char>) -> Seq<char> {
    let b = unsigned_part(t);
    b.take(dot_from(b, 0))
}

/// The digits after the decimal point.
pub open spec fn frac_digits(t: Seq<char>) -> Seq<char> {
    let b = unsigned_part(t);
    if dot_from(b, 0) < b.len() {
        b.skip(dot_from(b, 0) + 1)
    } else {
        seq![]
    }
}

/// `t` is a plain decimal number: an optional sign, digits with at most one
/// decimal point, and at least one digit.
pub open spec fn decimal_ok(t: Seq<char>) -> bool {
    &&& all_digits(int_digits(t))
    &&& all_digits(frac_digits(t))
    &&& int_digits(t).len() + frac_digits(t).len() > 0
}

/// The number is negative and not zero.
pub open spec fn below_zero(t: Seq<char>) -> bool {
    t.len() > 0 && t[0] == '-' && (digits_value(int_digits(t)) > 0 || digits_value(frac_digits(t))
        > 0)
}

/// `floor(2 * t * mult)` for the decimal `t` without its sign.
pub open spec fn twice_scaled(t: Seq<char>, mult: nat) -> nat {
    2 * mult * digits_value(int_digits(t)) + frac_floor(2 * mult, frac_digits(t))
}

/// The number of a duration: what precedes its first letter, trimmed.
pub open spec fn duration_num(s: Seq<char>) -> Seq<char> {
    trim(s.take(alpha_from(s, 0)))
}

/// The unit of a duration: the rest from its first letter, trimmed, or
/// `us` when it has no letter.
pub open spec fn duration_unit(s: Seq<char>) -> Seq<char> {
    let a = alpha_from(s, 0);
    if a < s.len() {
        trim(s.skip(a))
    } else {
        "us"@
    }
}

/// The microseconds a duration `s` denotes, rounded to the nearest whole
/// number (halves away from zero): its number times its unit, which is
/// microseconds when `s` has no letter.  None when the number or unit is
/// malformed, or the value is negative or beyond `u32::MAX`.
pub open spec fn duration_of(s: Seq<char>) -> Option<u32> {
    let num = duration_num(s);
    match unit_us(duration_unit(s)) {
        None => None,
        Some(mult) => {
            let twice = twice_scaled(num, mult);
            let fits = twice < 2 * (u32::MAX as nat) || (twice == 2 * (u32::MAX as nat)
                && frac_exact(2 * mult, frac_digits(num)));
            if !decimal_ok(num) || below_zero(num) || !fits {
                None
            } else {
                Some(((twice + 1) / 2) as u32)
            }
        }
    }
}

/// A run of digits spells zero exactly when every digit is `0`.
pub proof fn lemma_digits_zero(ds: Seq<char>)
    requires
        all_digits(ds),
    ensures
        digits_value(ds) == 0 <==> forall|i: int| 0 <= i < ds.len() ==> #[trigger] ds[i] == '0',
    decreases ds.len(),
{
    if ds.len() > 0 {
        let a = ds.drop_last();
        assert(all_digits(a)) by {
            assert forall|i: int| 0 <= i < a.len() implies #[trigger] is_digit(a[i]) by {
                assert(is_digit(ds[i]));
            }
        }
        lemma_digits_zero(a);
        assert(is_digit(ds[ds.len() - 1]));
        if forall|i: int| 0 <= i < ds.len() ==> #[trigger] ds[i] == '0' {
            assert forall|i: int| 0 <= i < a.len() implies #[trigger] a[i] == '0' by {
                assert(ds[i] == '0');
            }
            assert(ds[ds.len() - 1] == '0');
        }
        if digits_value(ds) == 0 {
            assert(digits_value(a) == 0);
            assert forall|i: int| 0 <= i < ds.len() implies #[trigger] ds[i] == '0' by {
                if i < a.len() {
                    assert(a[i] == '0');
                }
            }
        }
    }
}

/// The microseconds in one unit written `unit`.
fn unit_mult(unit: &[char]) -> (r: Option<u64>)
    ensures
        match unit_us(unit@) {
            Some(m) => r == Some(m as u64),
            None => r is None,
        },
{
    if spells(unit, "us") || spells(unit, "µs") {
        Some(1)
    } else if spells(unit, "ms") {
        Some(1000)
    } else if spells(unit, "s") {
        Some(1_000_000)
    } else if spells(unit, "m") || spells(unit, "min") {
        Some(60_000_000)
    } else {
        None
    }
}

/// The value of the digits `w` (none when one is not a digit or the value
/// passes `u32::MAX`) and whether it is not zero.
fn whole_value(w: &[char]) -> (r: Option<(u64, bool)>)
    ensures
        match r {
            Some((v, nz)) => all_digits(w@) && v == digits_value(w@) && v <= u32::MAX && nz == (
            digits_value(w@) > 0),
            None => !all_digits(w@) || digits_value(w@) > u32::MAX,
        },
{
    let mut acc: u64 = 0;
    let mut i: usize = 0;
    while i < w.len()
        invariant
            i <= w@.len(),
            acc <= u32::MAX,
            all_digits(w@.take(i as int)),
            acc == digits_value(w@.take(i as int)),
        decreases w.len() - i,
    {
        let c = w[i];
        if !('0' <= c && c <= '9') {
            assert(!is_digit(w@[i as int]));
            return None;
        }
        proof {
            let x = w@.take(i as int + 1);
            assert(x.drop_last() =~= w@.take(i as int));
            assert(all_digits(x)) by {
                assert forall|k: int| 0 <= k < x.len() implies #[trigger] is_digit(x[k]) by {
                    if k < i {
                        assert(x[k] == w@.take(i as int)[k]);
                    }
                }
            }
        }
        acc = acc * 10 + (c as u32 - 48) as u64;
        if acc > u32::MAX as u64 {
            proof {
                if all_digits(w@) {
                    crate::num::lemma_digits_mono(w@, i as int + 1);
                }
            }
            return None;
        }
        i = i + 1;
    }
    assert(w@.take(i as int) =~= w@);
    Some((acc, acc > 0))
}

/// The whole part and exactness of `c2 * 0.f` (none when a character of
/// `f` is not a digit) and whether `f` spells more than zero.
fn frac_value(f: &[char], c2: u64) -> (r: Option<(u64, bool, bool)>)
    requires
        1 <= c2 <= 120_000_000,
    ensures
        match r {
            Some((fl, ex, nz)) => all_digits(f@) && fl == frac_floor(c2 as nat, f@) && ex
                == frac_exact(c2 as nat, f@) && nz == (digits_value(f@) > 0) && fl <= c2,
            None => !all_digits(f@),
        },
{
    let mut carry: u64 = 0;
    let mut exact = true;
    let mut nonzero = false;
    let mut j: usize = f.len();
    assert(f@.skip(j as int) =~= Seq::<char>::empty());
    proof {
        assert(digits_value(Seq::<char>::empty()) == 0);
        assert(c2 * 0 == 0) by (nonlinear_arith);
    }
    while j > 0
        invariant
            j <= f@.len(),
            1 <= c2 <= 120_000_000,
            carry <= c2,
            all_digits(f@.skip(j as int)),
            carry == frac_floor(c2 as nat, f@.skip(j as int)),
            exact == frac_exact(c2 as nat, f@.skip(j as int)),
            nonzero == exists|k: int| j <= k < f@.len() && #[trigger] f@[k] != '0',
        decreases j,
    {
        let c = f[j - 1];
        if !('0' <= c && c <= '9') {
            assert(!is_digit(f@[j - 1]));
            return None;
        }
        let ghost ds = f@.skip(j as int - 1);
        proof {
            assert(ds.drop_first() =~= f@.skip(j as int));
            assert(ds[0] == c);
            assert(all_digits(ds)) by {
                assert forall|k: int| 0 <= k < ds.len() implies #[trigger] is_digit(ds[k]) by {
                    if k > 0 {
                        assert(ds[k] == f@.skip(j as int)[k - 1]);
                    }
                }
            }
            lemma_frac_step(c2 as nat, ds);
        }
        let dv = (c as u32 - 48) as u64;
        assert(c2 * dv <= 9 * c2) by (nonlinear_arith)
            requires
                dv <= 9,
        ;
        let tmp = c2 * dv + carry;
        carry = tmp / 10;
        exact = exact && tmp % 10 == 0;
        if c != '0' {
            nonzero = true;
        }
        j = j - 1;
    }
    assert(f@.skip(0) =~= f@);
    proof {
        lemma_digits_zero(f@);
    }
    Some((carry, exact, nonzero))
}

/// Read a duration from characters; see `duration_of`.
pub fn duration_chars(s: &[char]) -> (r: Option<u32>)
    ensures
        r == duration_of(s@),
{
    let mut a: usize = 0;
    while a < s.len() && !(('a' <= s[a] && s[a] <= 'z') || ('A' <= s[a] && s[a] <= 'Z'))
        invariant
            a <= s@.len(),
            alpha_from(s@, 0) == alpha_from(s@, a as int),
        decreases s.len() - a,
    {
        a = a + 1;
    }
    let num = trim_chars(slice_subrange(s, 0, a));
    let mult: u64 = if a < s.len() {
        match unit_mult(trim_chars(slice_subrange(s, a, s.len()))) {
            Some(m) => m,
            None => return None,
        }
    } else {
        1
    };
    let ghost t = num@;
    assert(t == duration_num(s@));
    assert(unit_us(duration_unit(s@)) == Some(mult as nat));
    let sl: usize = if num.len() > 0 && (num[0] == '+' || num[0] == '-') { 1 } else { 0 };
    let negative = num.len() > 0 && num[0] == '-';
    let body = slice_subrange(num, sl, num.len());
    assert(body@ == unsigned_part(t));
    let mut dot: usize = 0;
    while dot < body.len() && body[dot] != '.'
        invariant
            dot <= body@.len(),
            dot_from(body@, 0) == dot_from(body@, dot as int),
        decreases body.len() - dot,
    {
        dot = dot + 1;
    }
    let whole = slice_subrange(body, 0, dot);
    let frac = if dot < body.len() {
        slice_subrange(body, dot + 1, body.len())
    } else {
        slice_subrange(body, 0, 0)
    };
    assert(whole@ == int_digits(t));
    assert(frac@ =~= frac_digits(t));
    if whole.len() + frac.len() == 0 {
        return None;
    }
    let (wv, wnz) = match whole_value(whole) {
        Some(x) => x,
        None => {
            proof {
                if all_digits(whole@) {
                    assert(2 * mult * digits_value(whole@) >= 2 * digits_value(whole@)) by (nonlinear_arith)
                        requires
                            mult >= 1,
                    ;
                }
            }
            return None;
        },
    };
    let c2: u64 = 2 * mult;
    let (fl, exact, fnz) = match frac_value(frac, c2) {
        Some(x) => x,
        None => return None,
    };
    if negative && (wnz || fnz) {
        return None;
    }
    assert(c2 * wv <= 120_000_000 * 4_294_967_295) by (nonlinear_arith)
        requires
            c2 <= 120_000_000,
            wv <= 4_294_967_295,
    ;
    let twice = c2 * wv + fl;
    assert(twice == twice_scaled(t, mult as nat));
    let max2: u64 = 2 * (u32::MAX as u64);
    if twice < max2 || (twice == max2 && exact) {
        Some(((twice + 1) / 2) as u32)
    } else {
        None
    }
}

/// Parse a duration like `50ms`, `2s`, `300us`, or bare microseconds.
pub fn parse_duration_us(s: &str) -> (r: Option<u32>)
    ensures
        r == duration_of(s@),
{
    let cs = chars_of(s);
    duration_chars(cs.as_slice())
}

// ---- one script line --------------------------------------------------------

/// What a script has built so far: the header, the events, and the pause
/// still waiting for the next event.
pub ghost struct Script {
    pub header: Header,
    pub events: Seq<Event>,
    pub pending: u32,
}

/// The message for a command given too few arguments.
pub open spec fn needs_msg(cmd: Seq<char>) -> Seq<char> {
    "`"@ + cmd + "` needs more arguments"@
}

/// The message for an argument that is not a number.
pub open spec fn number_msg(a: Seq<char>) -> Seq<char> {
    "expected a number, got `"@ + a + "`"@
}

/// Argument `i` read as an `i32`.
pub open spec fn int_arg(cmd: Seq<char>, args: Seq<Seq<char>>, i: int) -> Result<i32, Seq<char>> {
    if i >= args.len() {
        Err(needs_msg(cmd))
    } else {
        match signed_value(args[i], i32::MIN as int, i32::MAX as nat) {
            Some(v) => Ok(v as i32),
            None => Err(number_msg(args[i])),
        }
    }
}

/// Argument `i` read as whole wheel notches, in 1/120 notch units.
pub open spec fn notch_arg(cmd: Seq<char>, args: Seq<Seq<char>>, i: int) -> Result<i32, Seq<char>> {
    match int_arg(cmd, args, i) {
        Err(m) => Err(m),
        Ok(n) => if i32::MIN <= n * 120 <= i32::MAX {
            Ok((n * 120) as i32)
        } else {
            Err("scroll amount is too large"@)
        },
    }
}

/// Index of the first `x` or `X` at or after `i`, or the length of `s`.
pub open spec fn x_from(s: Seq<char>, i: int) -> int
    decreases s.len() - i,
{
    if i >= s.len() {
        s.len() as int
    } else if s[i] == 'x' || s[i] == 'X' {
        i
    } else {
        x_from(s, i + 1)
    }
}

/// `st` with `e` added; the pending pause has gone into `e`.
pub open spec fn emit(st: Script, e: Event) -> Script {
    Script { header: st.header, events: st.events.push(e), pending: 0 }
}

/// `st` with another header.
pub open spec fn with_header(st: Script, h: Header) -> Script {
    Script { header: h, events: st.events, pending: st.pending }
}

pub open spec fn ev(kind: EventType, code: u16, x: i32, y: i32, d: u32) -> Event {
    Event { kind, code, x, y, delay_us: d }
}

/// `screen WxH`.
pub open spec fn step_screen(st: Script, cmd: Seq<char>, args: Seq<Seq<char>>) -> Result<Script, Seq<char>> {
    if args.len() == 0 {
        Err(needs_msg(cmd))
    } else {
        let a = args[0];
        let x = x_from(a, 0);
        if x >= a.len() {
            Err("expected WIDTHxHEIGHT"@)
        } else {
            match unsigned_value(a.take(x), u32::MAX as nat) {
                None => Err("bad width"@),
                Some(w) => match unsigned_value(a.skip(x + 1), u32::MAX as nat) {
                    None => Err("bad height"@),
                    Some(h) => Ok(
                        with_header(
                            st,
                            Header {
                                screen_w: w as u32,
                                screen_h: h as u32,
                                repeat: st.header.repeat,
                                speed_percent: st.header.speed_percent,
                            },
                        ),
                    ),
                },
            }
        }
    }
}

/// `repeat N`.
pub open spec fn step_repeat(st: Script, cmd: Seq<char>, args: Seq<Seq<char>>) -> Result<Script, Seq<char>> {
    if args.len() == 0 {
        Err(needs_msg(cmd))
    } else {
        match unsigned_value(args[0], u32::MAX as nat) {
            None => Err("repeat expects a non-negative count (0 = forever)"@),
            Some(n) => Ok(
                with_header(
                    st,
                    Header {
                        screen_w: st.header.screen_w,
                        screen_h: st.header.screen_h,
                        repeat: n as u32,
                        speed_percent: st.header.speed_percent,
                    },
                ),
            ),
        }
    }
}

/// `speed PERCENT`.
pub open spec fn step_speed(st: Script, cmd: Seq<char>, args: Seq<Seq<char>>) -> Result<Script, Seq<char>> {
    if args.len() == 0 {
        Err(needs_msg(cmd))
    } else {
        match unsigned_value(args[0], u32::MAX as nat) {
            None => Err("speed expects a positive percentage"@),
            Some(n) => if n == 0 {
                Err("speed must be greater than 0"@)
            } else {
                Ok(
                    with_header(
                        st,
                        Header {
                            screen_w: st.header.screen_w,
                            screen_h: st.header.screen_h,
                            repeat: st.header.repeat,
                            speed_percent: n as u32,
                        },
                    ),
                )
            },
        }
    }
}

/// `wait DURATION`: the pause grows, saturating at `u32::MAX`.
pub open spec fn step_wait(st: Script, cmd: Seq<char>, args: Seq<Seq<char>>) -> Result<Script, Seq<char>> {
    if args.len() == 0 {
        Err(needs_msg(cmd))
    } else {
        match duration_of(args[0]) {
            None => Err("bad duration `"@ + args[0] + "`"@),
            Some(d) => Ok(
                Script {
                    header: st.header,
                    events: st.events,
                    pending: if st.pending + d > u32::MAX {
                        u32::MAX
                    } else {
                        (st.pending + d) as u32
                    },
                },
            ),
        }
    }
}

/// Pauses add up: each `wait` adds its duration to the pause still
/// pending (saturating at `u32::MAX`), so two waits in a row give the next
/// event the sum of both, and that event takes the whole pause.
pub proof fn law_waits_add_up(
    st: Script,
    cmd: Seq<char>,
    w1: Seq<Seq<char>>,
    w2: Seq<Seq<char>>,
    mv: Seq<Seq<char>>,
    x: i32,
    y: i32,
)
    requires
        w1.len() > 0 && duration_of(w1[0]) is Some,
        w2.len() > 0 && duration_of(w2[0]) is Some,
        int_arg(cmd, mv, 0) == Ok::<i32, Seq<char>>(x),
        int_arg(cmd, mv, 1) == Ok::<i32, Seq<char>>(y),
    ensures
        ({
            let d1 = duration_of(w1[0]).unwrap() as int;
            let d2 = duration_of(w2[0]).unwrap() as int;
            let sum = st.pending + d1 + d2;
            let total = if sum > u32::MAX { u32::MAX as int } else { sum };
            let first = if st.pending + d1 > u32::MAX { u32::MAX as int } else { st.pending + d1 };
            match step_wait(st, cmd, w1) {
                Err(_) => false,
                Ok(s1) => s1.pending == first && s1.events == st.events && s1.header == st.header && match step_wait(
                    s1,
                    cmd,
                    w2,
                ) {
                    Err(_) => false,
                    Ok(s2) => s2.pending == total && s2.events == st.events && s2.header == st.header
                        && match step_move(s2, cmd, mv, EventType::MoveAbs) {
                        Err(_) => false,
                        Ok(s3) => s3.pending == 0 && s3.header == st.header && s3.events == st.events.push(
                            Event { kind: EventType::MoveAbs, code: 0, x, y, delay_us: total as u32 },
                        ),
                    },
                },
            }
        }),
{
}

/// `move X Y` or `moverel X Y`.
pub open spec fn step_move(st: Script, cmd: Seq<char>, args: Seq<Seq<char>>, kind: EventType) -> Result<Script, Seq<char>> {
    match int_arg(cmd, args, 0) {
        Err(m) => Err(m),
        Ok(x) => match int_arg(cmd, args, 1) {
            Err(m) => Err(m),
            Ok(y) => Ok(emit(st, ev(kind, 0, x, y, st.pending))),
        },
    }
}

/// `buttondown B`, `buttonup B` or `click B`.
pub open spec fn step_button(st: Script, cmd: Seq<char>, args: Seq<Seq<char>>) -> Result<Script, Seq<char>> {
    if args.len() == 0 {
        Err(needs_msg(cmd))
    } else {
        match button_code_of(args[0]) {
            None => Err("unknown button `"@ + args[0] + "`"@),
            Some(c) => {
                let p = st.pending;
                if cmd == "buttondown"@ {
                    Ok(emit(st, ev(EventType::ButtonPress, c, 0, 0, p)))
                } else if cmd == "buttonup"@ {
                    Ok(emit(st, ev(EventType::ButtonRelease, c, 0, 0, p)))
                } else {
                    Ok(
                        emit(
                            emit(st, ev(EventType::ButtonPress, c, 0, 0, p)),
                            ev(EventType::ButtonRelease, c, 0, 0, 0),
                        ),
                    )
                }
            },
        }
    }
}

/// `keydown K`, `keyup K` or `key K`.
pub open spec fn step_key(st: Script, cmd: Seq<char>, args: Seq<Seq<char>>) -> Result<Script, Seq<char>> {
    if args.len() == 0 {
        Err(needs_msg(cmd))
    } else {
        match key_code_of(args[0]) {
            None => Err("unknown key `"@ + args[0] + "`"@),
            Some(c) => {
                let p = st.pending;
                if cmd == "keydown"@ {
                    Ok(emit(st, ev(EventType::KeyPress, c, 0, 0, p)))
                } else if cmd == "keyup"@ {
                    Ok(emit(st, ev(EventType::KeyRelease, c, 0, 0, p)))
                } else {
                    Ok(
                        emit(
                            emit(st, ev(EventType::KeyPress, c, 0, 0, p)),
                            ev(EventType::KeyRelease, c, 0, 0, 0),
                        ),
                    )
                }
            },
        }
    }
}

/// The scroll amount of `scroll up|down|left|right N` or `scroll X Y`.
pub open spec fn scroll_amount(cmd: Seq<char>, args: Seq<Seq<char>>) -> Result<(i32, i32), Seq<char>> {
    let f = lower_all(args[0]);
    if f == "up"@ || f == "down"@ || f == "left"@ || f == "right"@ {
        match notch_arg(cmd, args, 1) {
            Err(m) => Err(m),
            Ok(n) => if f == "up"@ {
                Ok((0i32, -n as i32))
            } else if f == "down"@ {
                Ok((0i32, n))
            } else if f == "left"@ {
                Ok((-n as i32, 0i32))
            } else {
                Ok((n, 0i32))
            },
        }
    } else {
        match int_arg(cmd, args, 0) {
            Err(m) => Err(m),
            Ok(x) => match int_arg(cmd, args, 1) {
                Err(m) => Err(m),
                Ok(y) => Ok((x, y)),
            },
        }
    }
}

/// `scroll ...`.
pub open spec fn step_scroll(st: Script, cmd: Seq<char>, args: Seq<Seq<char>>) -> Result<Script, Seq<char>> {
    if args.len() == 0 {
        Err(needs_msg(cmd))
    } else {
        match scroll_amount(cmd, args) {
            Err(m) => Err(m),
            Ok((x, y)) => Ok(emit(st, ev(EventType::Scroll, 0, x, y, st.pending))),
        }
    }
}

/// What one line with words `ws` does to `st`: the new state, or the
/// message of its syntax error.
pub open spec fn step(st: Script, ws: Seq<Seq<char>>) -> Result<Script, Seq<char>> {
    if ws.len() == 0 {
        Ok(st)
    } else {
        let cmd = lower_all(ws[0]);
        let args = ws.drop_first();
        if cmd == "screen"@ {
            step_screen(st, cmd, args)
        } else if cmd == "repeat"@ {
            step_repeat(st, cmd, args)
        } else if cmd == "speed"@ {
            step_speed(st, cmd, args)
        } else if cmd == "wait"@ || cmd == "sleep"@ || cmd == "delay"@ {
            step_wait(st, cmd, args)
        } else if cmd == "move"@ || cmd == "moveto"@ {
            step_move(st, cmd, args, EventType::MoveAbs)
        } else if cmd == "moverel"@ {
            step_move(st, cmd, args, EventType::MoveRel)
        } else if cmd == "buttondown"@ || cmd == "buttonup"@ || cmd == "click"@ {
            step_button(st, cmd, args)
        } else if cmd == "keydown"@ || cmd == "keyup"@ || cmd == "key"@ {
            step_key(st, cmd, args)
        } else if cmd == "scroll"@ {
            step_scroll(st, cmd, args)
        } else {
            Err("unknown command `"@ + cmd + "`"@)
        }
    }
}

// ---- exec side of one line ---------------------------------------------------

/// The state a macro under construction and its pending pause stand for.
pub open spec fn script_of(m: Macro, pending: u32) -> Script {
    Script { header: m.header, events: m.events@, pending }
}

/// `r` and the state `after` are what `expected` describes.
pub open spec fn line_done(expected: Result<Script, Seq<char>>, r: Result<(), String>, after: Script) -> bool {
    match expected {
        Ok(st) => r is Ok && after == st,
        Err(msg) => match r {
            Ok(_) => false,
            Err(s) => s@ == msg,
        },
    }
}

/// `r` is `expected`, with its message as a string.
pub open spec fn same_result<T>(r: Result<T, String>, expected: Result<T, Seq<char>>) -> bool {
    match expected {
        Ok(v) => match r {
            Ok(x) => x == v,
            Err(_) => false,
        },
        Err(msg) => match r {
            Ok(_) => false,
            Err(s) => s@ == msg,
        },
    }
}

/// `pre`, the characters `w`, then `post`.
fn msg3(pre: &str, w: &[char], post: &str) -> (s: String)
    ensures
        s@ == pre@ + w@ + post@,
{
    let mut s = String::from_str(pre);
    let t = string_of(w);
    s.append(t.as_str());
    s.append(post);
    s
}

fn needs_more(cmd: &[char]) -> (s: String)
    ensures
        s@ == needs_msg(cmd@),
{
    msg3("`", cmd, "` needs more arguments")
}

/// Argument `i` read as an `i32`.
fn int_arg_exec(cmd: &[char], args: &[Vec<char>], i: usize) -> (r: Result<i32, String>)
    ensures
        same_result(r, int_arg(cmd@, views(args@), i as int)),
{
    if i >= args.len() {
        return Err(needs_more(cmd));
    }
    assert(views(args@)[i as int] == args@[i as int]@);
    match parse_i32(args[i].as_slice()) {
        Some(v) => Ok(v),
        None => Err(msg3("expected a number, got `", args[i].as_slice(), "`")),
    }
}

fn run_screen(m: &mut Macro, pending: &mut u32, cmd: &[char], args: &[Vec<char>]) -> (r: Result<(), String>)
    ensures
        line_done(step_screen(script_of(*old(m), *old(pending)), cmd@, views(args@)), r, script_of(*final(m), *final(pending))),
{
    if args.len() == 0 {
        return Err(needs_more(cmd));
    }
    let a = args[0].as_slice();
    assert(views(args@)[0] == a@);
    let mut x: usize = 0;
    while x < a.len() && a[x] != 'x' && a[x] != 'X'
        invariant
            x <= a@.len(),
            x_from(a@, 0) == x_from(a@, x as int),
        decreases a.len() - x,
    {
        x = x + 1;
    }
    if x == a.len() {
        return Err(String::from_str("expected WIDTHxHEIGHT"));
    }
    let w = match parse_unsigned(slice_subrange(a, 0, x), 0xffff_ffff) {
        Some(v) => v,
        None => return Err(String::from_str("bad width")),
    };
    let h = match parse_unsigned(slice_subrange(a, x + 1, a.len()), 0xffff_ffff) {
        Some(v) => v,
        None => return Err(String::from_str("bad height")),
    };
    m.header.screen_w = w as u32;
    m.header.screen_h = h as u32;
    Ok(())
}

fn run_repeat(m: &mut Macro, pending: &mut u32, cmd: &[char], args: &[Vec<char>]) -> (r: Result<(), String>)
    ensures
        line_done(step_repeat(script_of(*old(m), *old(pending)), cmd@, views(args@)), r, script_of(*final(m), *final(pending))),
{
    if args.len() == 0 {
        return Err(needs_more(cmd));
    }
    assert(views(args@)[0] == args@[0]@);
    match parse_unsigned(args[0].as_slice(), 0xffff_ffff) {
        Some(v) => {
            m.header.repeat = v as u32;
            Ok(())
        },
        None => Err(String::from_str("repeat expects a non-negative count (0 = forever)")),
    }
}

fn run_speed(m: &mut Macro, pending: &mut u32, cmd: &[char], args: &[Vec<char>]) -> (r: Result<(), String>)
    ensures
        line_done(step_speed(script_of(*old(m), *old(pending)), cmd@, views(args@)), r, script_of(*final(m), *final(pending))),
{
    if args.len() == 0 {
        return Err(needs_more(cmd));
    }
    assert(views(args@)[0] == args@[0]@);
    match parse_unsigned(args[0].as_slice(), 0xffff_ffff) {
        Some(v) => {
            if v == 0 {
                return Err(String::from_str("speed must be greater than 0"));
            }
            m.header.speed_percent = v as u32;
            Ok(())
        },
        None => Err(String::from_str("speed expects a positive percentage")),
    }
}

fn run_wait(m: &mut Macro, pending: &mut u32, cmd: &[char], args: &[Vec<char>]) -> (r: Result<(), String>)
    ensures
        line_done(step_wait(script_of(*old(m), *old(pending)), cmd@, views(args@)), r, script_of(*final(m), *final(pending))),
{
    if args.len() == 0 {
        return Err(needs_more(cmd));
    }
    assert(views(args@)[0] == args@[0]@);
    match duration_chars(args[0].as_slice()) {
        Some(d) => {
            *pending = if *pending as u64 + d as u64 > 0xffff_ffffu64 {
                0xffff_ffffu32
            } else {
                *pending + d
            };
            Ok(())
        },
        None => Err(msg3("bad duration `", args[0].as_slice(), "`")),
    }
}

fn run_move(m: &mut Macro, pending: &mut u32, cmd: &[char], args: &[Vec<char>], kind: EventType) -> (r: Result<(), String>)
    ensures
        line_done(step_move(script_of(*old(m), *old(pending)), cmd@, views(args@), kind), r, script_of(*final(m), *final(pending))),
{
    let x = match int_arg_exec(cmd, args, 0) {
        Ok(v) => v,
        Err(e) => return Err(e),
    };
    let y = match int_arg_exec(cmd, args, 1) {
        Ok(v) => v,
        Err(e) => return Err(e),
    };
    m.events.push(Event { kind, code: 0, x, y, delay_us: *pending });
    *pending = 0;
    Ok(())
}

fn run_button(m: &mut Macro, pending: &mut u32, cmd: &[char], args: &[Vec<char>]) -> (r: Result<(), String>)
    ensures
        line_done(step_button(script_of(*old(m), *old(pending)), cmd@, views(args@)), r, script_of(*final(m), *final(pending))),
{
    if args.len() == 0 {
        return Err(needs_more(cmd));
    }
    assert(views(args@)[0] == args@[0]@);
    let code = match button_code_chars(args[0].as_slice()) {
        Some(c) => c,
        None => return Err(msg3("unknown button `", args[0].as_slice(), "`")),
    };
    let d = *pending;
    *pending = 0;
    if spells(cmd, "buttondown") {
        m.events.push(Event::button(code, true, d));
    } else if spells(cmd, "buttonup") {
        m.events.push(Event::button(code, false, d));
    } else {
        m.events.push(Event::button(code, true, d));
        m.events.push(Event::button(code, false, 0));
    }
    Ok(())
}

fn run_key(m: &mut Macro, pending: &mut u32, cmd: &[char], args: &[Vec<char>]) -> (r: Result<(), String>)
    ensures
        line_done(step_key(script_of(*old(m), *old(pending)), cmd@, views(args@)), r, script_of(*final(m), *final(pending))),
{
    if args.len() == 0 {
        return Err(needs_more(cmd));
    }
    assert(views(args@)[0] == args@[0]@);
    let code = match key_code_chars(args[0].as_slice()) {
        Some(c) => c,
        None => return Err(msg3("unknown key `", args[0].as_slice(), "`")),
    };
    let d = *pending;
    *pending = 0;
    if spells(cmd, "keydown") {
        m.events.push(Event::key(code, true, d));
    } else if spells(cmd, "keyup") {
        m.events.push(Event::key(code, false, d));
    } else {
        m.events.push(Event::key(code, true, d));
        m.events.push(Event::key(code, false, 0));
    }
    Ok(())
}

/// Argument `i` read as whole wheel notches.
fn notch_arg_exec(cmd: &[char], args: &[Vec<char>], i: usize) -> (r: Result<i32, String>)
    ensures
        same_result(r, notch_arg(cmd@, views(args@), i as int)),
        r matches Ok(n) ==> n != i32::MIN,
{
    let k = match int_arg_exec(cmd, args, i) {
        Ok(v) => v,
        Err(e) => return Err(e),
    };
    let n = k as i64 * SCROLL_NOTCH as i64;
    if n < i32::MIN as i64 || n > i32::MAX as i64 {
        return Err(String::from_str("scroll amount is too large"));
    }
    Ok(n as i32)
}

fn run_scroll(m: &mut Macro, pending: &mut u32, cmd: &[char], args: &[Vec<char>]) -> (r: Result<(), String>)
    ensures
        line_done(step_scroll(script_of(*old(m), *old(pending)), cmd@, views(args@)), r, script_of(*final(m), *final(pending))),
{
    if args.len() == 0 {
        return Err(needs_more(cmd));
    }
    assert(views(args@)[0] == args@[0]@);
    let f = lower_vec(args[0].as_slice());
    let up = spells(f.as_slice(), "up");
    let down = spells(f.as_slice(), "down");
    let left = spells(f.as_slice(), "left");
    let right = spells(f.as_slice(), "right");
    let (x, y): (i32, i32) = if up || down || left || right {
        let n = match notch_arg_exec(cmd, args, 1) {
            Ok(v) => v,
            Err(e) => return Err(e),
        };
        if up {
            (0, -n)
        } else if down {
            (0, n)
        } else if left {
            (-n, 0)
        } else {
            (n, 0)
        }
    } else {
        let a = match int_arg_exec(cmd, args, 0) {
            Ok(v) => v,
            Err(e) => return Err(e),
        };
        let b = match int_arg_exec(cmd, args, 1) {
            Ok(v) => v,
            Err(e) => return Err(e),
        };
        (a, b)
    };
    m.events.push(Event::scroll(x, y, *pending));
    *pending = 0;
    Ok(())
}

/// Apply one line, given as its words, to the macro under construction.
pub fn run_line(m: &mut Macro, pending: &mut u32, ws: &[Vec<char>]) -> (r: Result<(), String>)
    ensures
        line_done(step(script_of(*old(m), *old(pending)), views(ws@)), r, script_of(*final(m), *final(pending))),
{
    if ws.len() == 0 {
        return Ok(());
    }
    let cmdv = lower_vec(ws[0].as_slice());
    let cmd = cmdv.as_slice();
    let args = slice_subrange(ws, 1, ws.len());
    assert(views(ws@)[0] == ws@[0]@);
    assert(views(args@) =~= views(ws@).drop_first());
    if spells(cmd, "screen") {
        run_screen(m, pending, cmd, args)
    } else if spells(cmd, "repeat") {
        run_repeat(m, pending, cmd, args)
    } else if spells(cmd, "speed") {
        run_speed(m, pending, cmd, args)
    } else if spells(cmd, "wait") || spells(cmd, "sleep") || spells(cmd, "delay") {
        run_wait(m, pending, cmd, args)
    } else if spells(cmd, "move") || spells(cmd, "moveto") {
        run_move(m, pending, cmd, args, EventType::MoveAbs)
    } else if spells(cmd, "moverel") {
        run_move(m, pending, cmd, args, EventType::MoveRel)
    } else if spells(cmd, "buttondown") || spells(cmd, "buttonup") || spells(cmd, "click") {
        run_button(m, pending, cmd, args)
    } else if spells(cmd, "keydown") || spells(cmd, "keyup") || spells(cmd, "key") {
        run_key(m, pending, cmd, args)
    } else if spells(cmd, "scroll") {
        run_scroll(m, pending, cmd, args)
    } else {
        Err(msg3("unknown command `", cmd, "`"))
    }
}

// ---- whole scripts --------------------------------------------------------

/// Lines `k..` of a script applied to `st`: the final state, or the
/// 1-based number and message of the first line in error.
pub open spec fn run_lines(lines: Seq<Seq<char>>, k: int, st: Script) -> Result<Script, (nat, Seq<char>)>
    decreases lines.len() - k,
{
    if k < 0 || k >= lines.len() {
        Ok(st)
    } else {
        match step(st, line_words(lines[k])) {
            Err(msg) => Err(((k + 1) as nat, msg)),
            Ok(st2) => run_lines(lines, k + 1, st2),
        }
    }
}

/// The events of a finished script: a trailing pause is kept as a
/// motionless relative move, which matters when the macro repeats.
pub open spec fn finish(st: Script) -> Seq<Event> {
    if st.pending > 0 {
        st.events.push(ev(EventType::MoveRel, 0, 0, 0, st.pending))
    } else {
        st.events
    }
}

/// The state a script starts from.
pub open spec fn start() -> Script {
    Script { header: crate::format::default_header(), events: seq![], pending: 0 }
}

/// What a script `src` holds: its header and events, or the line number
/// and message of its first error.
pub open spec fn script(src: Seq<char>) -> Result<(Header, Seq<Event>), (nat, Seq<char>)> {
    match run_lines(lines_of(src), 0, start()) {
        Err(e) => Err(e),
        Ok(st) => Ok((st.header, finish(st))),
    }
}

/// `r` is what `parse` returns for a script whose meaning is `expected`.
pub open spec fn parsed(expected: Result<(Header, Seq<Event>), (nat, Seq<char>)>, r: Result<Macro, Error>) -> bool {
    match expected {
        Ok((h, es)) => match r {
            Ok(m) => m.header == h && m.events@ == es,
            Err(_) => false,
        },
        Err((line, msg)) => match r {
            Err(Error::Syntax { line: l, msg: s }) => l == line && s@ == msg,
            _ => false,
        },
    }
}

/// Parse a text script.
pub fn parse(src: &str) -> (r: Result<Macro, Error>)
    ensures
        parsed(script(src@), r),
{
    let cs = chars_of(src);
    let s = cs.as_slice();
    let ghost lines = lines_of(s@);
    let mut m = Macro::default();
    let mut pending: u32 = 0;
    let mut i: usize = 0;
    let mut k: usize = 0;
    while i < s.len()
        invariant
            s@ == src@,
            lines == lines_of(s@),
            i <= s@.len(),
            k <= i,
            k <= lines.len(),
            lines_from(s@, i as int) == lines.skip(k as int),
            run_lines(lines, 0, start()) == run_lines(lines, k as int, script_of(m, pending)),
        decreases s.len() - i,
    {
        let e = find_line_end(s, i);
        proof {
            lemma_line_end(s@, i as int);
        }
        let end = if e < s.len() && e > i && s[e - 1] == '\r' {
            e - 1
        } else {
            e
        };
        let line = slice_subrange(s, i, end);
        assert(line@ =~= line_at(s@, i as int, e as int));
        proof {
            assert(lines.skip(k as int) == seq![line@] + lines_from(s@, e + 1));
            assert(lines[k as int] == lines.skip(k as int)[0]);
            assert(lines.skip(k as int + 1) =~= lines.skip(k as int).drop_first());
            assert(lines.skip(k as int).drop_first() =~= lines_from(s@, e + 1));
        }
        let ws = words_of_line(line);
        match run_line(&mut m, &mut pending, ws.as_slice()) {
            Ok(()) => {},
            Err(msg) => {
                return Err(Error::Syntax { line: k + 1, msg });
            },
        }
        k = k + 1;
        i = if e < s.len() {
            e + 1
        } else {
            s.len()
        };
    }
    proof {
        assert(lines.skip(k as int).len() == 0);
    }
    if pending > 0 {
        m.events.push(Event::move_rel(0, 0, pending));
    }
    Ok(m)
}

// ---- rendering ---------------------------------------------------------------

/// How `render` writes a pause: whole seconds, else whole milliseconds,
/// else microseconds.
pub open spec fn duration_text(us: u32) -> Seq<char> {
    if us % 1_000_000 == 0 {
        dec((us / 1_000_000) as nat) + "s"@
    } else if us % 1000 == 0 {
        dec((us / 1000) as nat) + "ms"@
    } else {
        dec(us as nat) + "us"@
    }
}

pub fn fmt_duration(us: u32) -> (s: String)
    ensures
        s@ == duration_text(us),
{
    let mut s = String::new();
    if us % 1_000_000 == 0 {
        append_dec(&mut s, (us / 1_000_000) as u64);
        s.append("s");
    } else if us % 1000 == 0 {
        append_dec(&mut s, (us / 1000) as u64);
        s.append("ms");
    } else {
        append_dec(&mut s, us as u64);
        s.append("us");
    }
    s
}

/// `total` microseconds in milliseconds, rounded half to even.
pub open spec fn rounded_ms(total: nat) -> nat {
    let q = total / 1000;
    let r = total % 1000;
    if r > 500 || (r == 500 && q % 2 == 1) {
        q + 1
    } else {
        q
    }
}

/// Three digits, with leading zeros, of `n < 1000`.
pub open spec fn three_digits(n: nat) -> Seq<char> {
    if n < 10 {
        "00"@ + dec(n)
    } else if n < 100 {
        "0"@ + dec(n)
    } else {
        dec(n)
    }
}

/// `total` microseconds as seconds with three decimals.
pub open spec fn seconds_text(total: nat) -> Seq<char> {
    dec(rounded_ms(total) / 1000) + "."@ + three_digits(rounded_ms(total) % 1000)
}

/// The comment that opens a rendered script.
pub open spec fn comment_line(n: nat, total: nat) -> Seq<char> {
    "# atbswp macro: "@ + dec(n) + " events, "@ + seconds_text(total) + "s\n"@
}

/// The `screen` line, when a screen size was recorded.
pub open spec fn screen_text(h: Header) -> Seq<char> {
    if h.screen_w != 0 || h.screen_h != 0 {
        "screen "@ + dec(h.screen_w as nat) + "x"@ + dec(h.screen_h as nat) + "\n"@
    } else {
        seq![]
    }
}

/// The `repeat` line, unless the count is 1.
pub open spec fn repeat_text(h: Header) -> Seq<char> {
    if h.repeat != 1 {
        "repeat "@ + dec(h.repeat as nat) + "\n"@
    } else {
        seq![]
    }
}

/// The `speed` line, unless the speed is 100%.
pub open spec fn speed_text(h: Header) -> Seq<char> {
    if h.speed_percent != 100 {
        "speed "@ + dec(h.speed_percent as nat) + "\n"@
    } else {
        seq![]
    }
}

/// The header lines: only the fields that differ from a new macro's.
pub open spec fn header_text(h: Header) -> Seq<char> {
    screen_text(h) + repeat_text(h) + speed_text(h)
}

/// The word `render` writes for a key code: its canonical name, or the number.
pub open spec fn key_text(code: u16) -> Seq<char> {
    match code_pos(KEYS@, code) {
        Some(i) => KEYS@[i].0@,
        None => dec(code as nat),
    }
}

/// The line of one event, without its pause.
pub open spec fn event_line(e: Event) -> Seq<char> {
    match e.kind {
        EventType::MoveAbs => "move "@ + dec_int(e.x as int) + " "@ + dec_int(e.y as int) + "\n"@,
        EventType::MoveRel => "moverel "@ + dec_int(e.x as int) + " "@ + dec_int(e.y as int) + "\n"@,
        EventType::ButtonPress => "buttondown "@ + button_name_of(e.code) + "\n"@,
        EventType::ButtonRelease => "buttonup "@ + button_name_of(e.code) + "\n"@,
        EventType::KeyPress => "keydown "@ + key_text(e.code) + "\n"@,
        EventType::KeyRelease => "keyup "@ + key_text(e.code) + "\n"@,
        EventType::Scroll => "scroll "@ + dec_int(e.x as int) + " "@ + dec_int(e.y as int) + "\n"@,
    }
}

/// The lines of one event: its pause, if any, then the event.
pub open spec fn event_text(e: Event) -> Seq<char> {
    (if e.delay_us > 0 {
        "wait "@ + duration_text(e.delay_us) + "\n"@
    } else {
        seq![]
    }) + event_line(e)
}

/// The lines of all events.
pub open spec fn events_text(es: Seq<Event>) -> Seq<char>
    decreases es.len(),
{
    if es.len() == 0 {
        seq![]
    } else {
        events_text(es.drop_last()) + event_text(es.last())
    }
}

/// The script `render` writes for a macro.
pub open spec fn rendered(h: Header, es: Seq<Event>) -> Seq<char> {
    comment_line(es.len(), total_delay(es)) + header_text(h) + events_text(es)
}

fn push_line_end(s: &mut String)
    ensures
        final(s)@ == old(s)@ + "\n"@,
{
    s.append("\n");
}

fn append_seconds(s: &mut String, total: u64)
    ensures
        final(s)@ == old(s)@ + seconds_text(total as nat),
{
    let q = total / 1000;
    let r = total % 1000;
    let ms = if r > 500 || (r == 500 && q % 2 == 1) {
        q + 1
    } else {
        q
    };
    append_dec(s, ms / 1000);
    s.append(".");
    let f = ms % 1000;
    if f < 10 {
        s.append("00");
    } else if f < 100 {
        s.append("0");
    }
    append_dec(s, f);
    assert(final(s)@ =~= old(s)@ + seconds_text(total as nat));
}

fn append_screen(s: &mut String, h: &Header)
    ensures
        final(s)@ == old(s)@ + screen_text(*h),
{
    if h.screen_w != 0 || h.screen_h != 0 {
        s.append("screen ");
        append_dec(s, h.screen_w as u64);
        s.append("x");
        append_dec(s, h.screen_h as u64);
        push_line_end(s);
    }
    assert(final(s)@ =~= old(s)@ + screen_text(*h));
}

fn append_repeat(s: &mut String, h: &Header)
    ensures
        final(s)@ == old(s)@ + repeat_text(*h),
{
    if h.repeat != 1 {
        s.append("repeat ");
        append_dec(s, h.repeat as u64);
        push_line_end(s);
    }
    assert(final(s)@ =~= old(s)@ + repeat_text(*h));
}

fn append_speed(s: &mut String, h: &Header)
    ensures
        final(s)@ == old(s)@ + speed_text(*h),
{
    if h.speed_percent != 100 {
        s.append("speed ");
        append_dec(s, h.speed_percent as u64);
        push_line_end(s);
    }
    assert(final(s)@ =~= old(s)@ + speed_text(*h));
}

fn append_header(s: &mut String, h: &Header)
    ensures
        final(s)@ == old(s)@ + header_text(*h),
{
    append_screen(s, h);
    append_repeat(s, h);
    append_speed(s, h);
    assert(final(s)@ =~= old(s)@ + header_text(*h));
}

fn append_pair(s: &mut String, verb: &str, x: i32, y: i32)
    ensures
        final(s)@ == old(s)@ + verb@ + dec_int(x as int) + " "@ + dec_int(y as int) + "\n"@,
{
    s.append(verb);
    append_dec_i64(s, x as i64);
    s.append(" ");
    append_dec_i64(s, y as i64);
    push_line_end(s);
    assert(final(s)@ =~= old(s)@ + verb@ + dec_int(x as int) + " "@ + dec_int(y as int) + "\n"@);
}

#[verifier::spinoff_prover]
#[verifier::rlimit(40)]
fn append_event(s: &mut String, e: &Event)
    ensures
        final(s)@ == old(s)@ + event_text(*e),
{
    let ghost s0 = s@;
    if e.delay_us > 0 {
        s.append("wait ");
        let d = fmt_duration(e.delay_us);
        s.append(d.as_str());
        push_line_end(s);
    }
    assert(s@ =~= s0 + (if e.delay_us > 0 {
        "wait "@ + duration_text(e.delay_us) + "\n"@
    } else {
        seq![]
    }));
    let ghost s1 = s@;
    match e.kind {
        EventType::MoveAbs => append_pair(s, "move ", e.x, e.y),
        EventType::MoveRel => append_pair(s, "moverel ", e.x, e.y),
        EventType::ButtonPress => {
            s.append("buttondown ");
            let n = button_name(e.code);
            s.append(n.as_str());
            push_line_end(s);
        },
        EventType::ButtonRelease => {
            s.append("buttonup ");
            let n = button_name(e.code);
            s.append(n.as_str());
            push_line_end(s);
        },
        EventType::KeyPress | EventType::KeyRelease => {
            if e.kind == EventType::KeyPress {
                s.append("keydown ");
            } else {
                s.append("keyup ");
            }
            match key_name(e.code) {
                Some(n) => s.append(n),
                None => append_dec(s, e.code as u64),
            }
            push_line_end(s);
        },
        EventType::Scroll => append_pair(s, "scroll ", e.x, e.y),
    }
    assert(s@ =~= s1 + event_line(*e));
}

/// Render a macro as a text script that `parse` accepts.
pub fn render(m: &Macro) -> (s: String)
    requires
        total_delay(m.events@) <= u64::MAX,
    ensures
        s@ == rendered(m.header, m.events@),
{
    let mut s = String::from_str("# atbswp macro: ");
    append_dec(&mut s, m.events.len() as u64);
    s.append(" events, ");
    append_seconds(&mut s, m.duration_us());
    s.append("s\n");
    assert(s@ =~= comment_line(m.events@.len(), total_delay(m.events@)));
    append_header(&mut s, &m.header);
    let ghost s0 = s@;
    let mut i: usize = 0;
    while i < m.events.len()
        invariant
            i <= m.events@.len(),
            s@ == s0 + events_text(m.events@.take(i as int)),
        decreases m.events.len() - i,
    {
        append_event(&mut s, &m.events[i]);
        proof {
            assert(m.events@.take(i as int + 1).drop_last() =~= m.events@.take(i as int));
        }
        i = i + 1;
    }
    assert(m.events@.take(i as int) =~= m.events@);
    assert(s@ =~= rendered(m.header, m.events@));
    s
}

} // verus!
