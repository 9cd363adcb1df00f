//! What `render` writes, `parse` reads back: the script form of a macro
//! loses nothing that a macro built by the recorder or the parser holds.

use crate::chars::{lower_all, white_space};
use crate::format::{Event, EventType, Header};
use crate::key_order::lemma_key_name_reads_back;
use crate::keys::{
    bare_button_name, button_code_of, button_name_of, code_named, code_pos, first_code, first_name,
    key_code_of, name_pos, BUTTONS, KEYS,
};
use crate::num::{
    all_digits, dec, dec_int, digits_value, is_digit, lemma_dec, lemma_signed_dec,
    lemma_unsigned_dec, unsigned_value,
};
use crate::text::{
    alpha, alpha_from, below_zero, comment_line, decimal_ok, dot_from, duration_num, duration_of,
    duration_text, duration_unit, emit, ev, event_line, event_text, events_text, finish,
    frac_digits, frac_exact, frac_floor, hash_from, hash_pos, header_text, int_arg, int_digits,
    key_text, lead, lemma_line_end, lemma_words_cons, lemma_words_one, line_at, line_end,
    line_words, lines_from, lines_of, pow10, rendered, repeat_text, run_lines, screen_text, script,
    scroll_amount, seconds_text, solid, speed_text, start, step, step_button, step_key, step_move,
    step_repeat, step_screen, step_scroll, step_speed, step_wait, tail, three_digits, trim,
    twice_scaled, unit_us, unsigned_part, with_header, words_from, x_from, Script,
};
use vstd::prelude::*;

verus! {

// ---- lines ---------------------------------------------------------------------

/// `l` can stand as one line of a script: no line break in it and no
/// carriage return at its end.
pub open spec fn line_ok(l: Seq<char>) -> bool {
    &&& forall|i: int| 0 <= i < l.len() ==> #[trigger] l[i] != '\n'
    &&& (l.len() == 0 || l.last() != '\r')
}

/// Lines, each followed by a line break.
pub open spec fn joined(ls: Seq<Seq<char>>) -> Seq<char>
    decreases ls.len(),
{
    if ls.len() == 0 {
        seq![]
    } else {
        ls[0] + seq!['\n'] + joined(ls.drop_first())
    }
}

pub proof fn lemma_joined_append(a: Seq<Seq<char>>, b: Seq<Seq<char>>)
    ensures
        joined(a + b) == joined(a) + joined(b),
    decreases a.len(),
{
    if a.len() == 0 {
        assert(a + b =~= b);
        assert(joined(a) + joined(b) =~= joined(b));
    } else {
        assert((a + b).drop_first() =~= a.drop_first() + b);
        lemma_joined_append(a.drop_first(), b);
        assert((a + b)[0] == a[0]);
        assert(joined(a + b) =~= a[0] + seq!['\n'] + (joined(a.drop_first()) + joined(b)));
        assert(joined(a) + joined(b) =~= a[0] + seq!['\n'] + joined(a.drop_first()) + joined(b));
    }
}

proof fn lemma_line_end_shift(p: Seq<char>, q: Seq<char>, j: int)
    requires
        0 <= j <= q.len(),
    ensures
        line_end(p + q, p.len() + j) == p.len() + line_end(q, j),
    decreases q.len() - j,
{
    if j < q.len() {
        assert((p + q)[p.len() + j] == q[j]);
        if q[j] != '\n' {
            lemma_line_end_shift(p, q, j + 1);
        }
    }
}

/// Splitting lines after a prefix is splitting the rest.
proof fn lemma_lines_shift(p: Seq<char>, q: Seq<char>, j: int)
    requires
        0 <= j <= q.len(),
    ensures
        lines_from(p + q, p.len() + j) == lines_from(q, j),
    decreases q.len() - j,
{
    if j < q.len() {
        lemma_line_end_shift(p, q, j);
        lemma_line_end(q, j);
        let e = line_end(q, j);
        let s = p + q;
        assert(s.subrange(p.len() + j, p.len() + e) =~= q.subrange(j, e));
        assert(line_at(s, p.len() + j, p.len() + e) == line_at(q, j, e));
        if e < q.len() {
            lemma_lines_shift(p, q, e + 1);
        }
        assert(lines_from(s, p.len() + j) == seq![line_at(s, p.len() + j, p.len() + e)]
            + lines_from(s, p.len() + e + 1));
        assert(lines_from(q, j) == seq![line_at(q, j, e)] + lines_from(q, e + 1));
    }
}

proof fn lemma_line_end_plain(s: Seq<char>, l: Seq<char>, j: int)
    requires
        0 <= j <= l.len(),
        l.len() < s.len(),
        s.take(l.len() as int) == l,
        s[l.len() as int] == '\n',
        forall|i: int| 0 <= i < l.len() ==> #[trigger] l[i] != '\n',
    ensures
        line_end(s, j) == l.len(),
    decreases l.len() - j,
{
    if j < l.len() {
        assert(s[j] == s.take(l.len() as int)[j]);
        lemma_line_end_plain(s, l, j + 1);
    }
}

/// A line and its break come off the front as that line.
pub proof fn lemma_lines_cons(l: Seq<char>, rest: Seq<char>)
    requires
        line_ok(l),
    ensures
        lines_from(l + seq!['\n'] + rest, 0) == seq![l] + lines_from(rest, 0),
{
    let p = l + seq!['\n'];
    let s = p + rest;
    assert(s.take(l.len() as int) =~= l);
    assert(s[l.len() as int] == '\n');
    lemma_line_end_plain(s, l, 0);
    assert(s.subrange(0, l.len() as int) =~= l);
    assert(line_at(s, 0, l.len() as int) == l);
    lemma_lines_shift(p, rest, 0);
}

/// Lines joined with breaks split back into those lines.
pub proof fn lemma_lines_joined(ls: Seq<Seq<char>>)
    requires
        forall|i: int| 0 <= i < ls.len() ==> line_ok(#[trigger] ls[i]),
    ensures
        lines_of(joined(ls)) == ls,
    decreases ls.len(),
{
    if ls.len() > 0 {
        let rest = ls.drop_first();
        assert forall|i: int| 0 <= i < rest.len() implies line_ok(#[trigger] rest[i]) by {
            assert(rest[i] == ls[i + 1]);
        }
        lemma_lines_joined(rest);
        assert(line_ok(ls[0]));
        lemma_lines_cons(ls[0], joined(rest));
        assert(seq![ls[0]] + rest =~= ls);
    }
}

// ---- running lines ---------------------------------------------------------------

/// Running a longer script through its first lines gets where running those
/// lines alone gets.
pub proof fn lemma_run_prefix(l1: Seq<Seq<char>>, l2: Seq<Seq<char>>, k: int, st: Script)
    requires
        0 <= k <= l1.len(),
        run_lines(l1, k, st) is Ok,
    ensures
        run_lines(l1 + l2, k, st) == run_lines(l1 + l2, l1.len() as int, run_lines(l1, k, st)->Ok_0),
    decreases l1.len() - k,
{
    if k < l1.len() {
        assert((l1 + l2)[k] == l1[k]);
        match step(st, line_words(l1[k])) {
            Ok(st2) => {
                lemma_run_prefix(l1, l2, k + 1, st2);
            },
            Err(_) => {},
        }
    }
}

/// Lines that run through on their own run through the same way after others.
pub proof fn lemma_run_suffix(l1: Seq<Seq<char>>, l2: Seq<Seq<char>>, k: int, st: Script)
    requires
        0 <= k <= l2.len(),
        run_lines(l2, k, st) is Ok,
    ensures
        run_lines(l1 + l2, l1.len() + k, st) == run_lines(l2, k, st),
    decreases l2.len() - k,
{
    if k < l2.len() {
        assert((l1 + l2)[l1.len() + k] == l2[k]);
        match step(st, line_words(l2[k])) {
            Ok(st2) => {
                lemma_run_suffix(l1, l2, k + 1, st2);
            },
            Err(_) => {},
        }
    }
}

// ---- words -------------------------------------------------------------------------

/// `w` can stand as one word of a script line.
pub open spec fn word_ok(w: Seq<char>) -> bool {
    &&& w.len() > 0
    &&& solid(w)
    &&& forall|i: int| 0 <= i < w.len() ==> #[trigger] w[i] != '#'
}

/// Words separated by single spaces.
pub open spec fn spaced(ws: Seq<Seq<char>>) -> Seq<char>
    decreases ws.len(),
{
    if ws.len() == 0 {
        seq![]
    } else if ws.len() == 1 {
        ws[0]
    } else {
        ws[0] + seq![' '] + spaced(ws.drop_first())
    }
}

proof fn lemma_hash_none(s: Seq<char>, i: int)
    requires
        0 <= i <= s.len(),
        forall|j: int| 0 <= j < s.len() ==> #[trigger] s[j] != '#',
    ensures
        hash_from(s, i) == s.len(),
    decreases s.len() - i,
{
    if i < s.len() {
        lemma_hash_none(s, i + 1);
    }
}

/// The characters of spaced words: no line break, no `#`, and no carriage
/// return at the end.
proof fn lemma_spaced_chars(ws: Seq<Seq<char>>)
    requires
        ws.len() > 0,
        forall|i: int| 0 <= i < ws.len() ==> word_ok(#[trigger] ws[i]),
    ensures
        forall|i: int| 0 <= i < spaced(ws).len() ==> #[trigger] spaced(ws)[i] != '\n' && spaced(ws)[i] != '#',
        spaced(ws).len() > 0,
        !white_space(spaced(ws).last()),
    decreases ws.len(),
{
    assert(word_ok(ws[0]));
    if ws.len() == 1 {
        assert forall|i: int| 0 <= i < spaced(ws).len() implies #[trigger] spaced(ws)[i] != '\n' && spaced(ws)[i] != '#' by {
            assert(!white_space(ws[0][i]));
        }
        assert(!white_space(ws[0][ws[0].len() - 1]));
    } else {
        let rest = ws.drop_first();
        assert forall|i: int| 0 <= i < rest.len() implies word_ok(#[trigger] rest[i]) by {
            assert(rest[i] == ws[i + 1]);
        }
        lemma_spaced_chars(rest);
        let w = ws[0];
        let s = spaced(ws);
        assert(s == w + seq![' '] + spaced(rest));
        assert forall|i: int| 0 <= i < s.len() implies #[trigger] s[i] != '\n' && s[i] != '#' by {
            if i < w.len() {
                assert(s[i] == w[i]);
                assert(!white_space(w[i]));
            } else if i > w.len() {
                assert(s[i] == spaced(rest)[i - w.len() - 1]);
            }
        }
        assert(s.last() == spaced(rest).last());
    }
}

/// The words of a line of spaced words are those words.
proof fn lemma_spaced_words(ws: Seq<Seq<char>>)
    requires
        ws.len() > 0,
        forall|i: int| 0 <= i < ws.len() ==> word_ok(#[trigger] ws[i]),
    ensures
        words_from(spaced(ws), 0) == ws,
    decreases ws.len(),
{
    assert(word_ok(ws[0]));
    if ws.len() == 1 {
        lemma_words_one(ws[0]);
        assert(seq![ws[0]] =~= ws);
    } else {
        let rest = ws.drop_first();
        assert forall|i: int| 0 <= i < rest.len() implies word_ok(#[trigger] rest[i]) by {
            assert(rest[i] == ws[i + 1]);
        }
        lemma_spaced_words(rest);
        lemma_words_cons(ws[0], spaced(rest));
        assert(seq![ws[0]] + rest =~= ws);
    }
}

/// A line of spaced words is a good line and reads as those words.
pub proof fn lemma_spaced_line(ws: Seq<Seq<char>>)
    requires
        ws.len() > 0,
        forall|i: int| 0 <= i < ws.len() ==> word_ok(#[trigger] ws[i]),
    ensures
        line_ok(spaced(ws)),
        line_words(spaced(ws)) == ws,
{
    lemma_spaced_chars(ws);
    lemma_spaced_words(ws);
    let s = spaced(ws);
    lemma_hash_none(s, 0);
    assert(s.take(hash_pos(s)) =~= s);
}

// ---- pauses ------------------------------------------------------------------------

proof fn lemma_alpha_from_digits(s: Seq<char>, n: int, i: int)
    requires
        0 <= i <= n < s.len(),
        forall|j: int| 0 <= j < n ==> is_digit(#[trigger] s[j]),
        alpha(s[n]),
    ensures
        alpha_from(s, i) == n,
    decreases n - i,
{
    if i < n {
        assert(is_digit(s[i]));
        lemma_alpha_from_digits(s, n, i + 1);
    }
}

proof fn lemma_dot_none(s: Seq<char>, i: int)
    requires
        0 <= i <= s.len(),
        all_digits(s),
    ensures
        dot_from(s, i) == s.len(),
    decreases s.len() - i,
{
    if i < s.len() {
        assert(is_digit(s[i]));
        lemma_dot_none(s, i + 1);
    }
}

/// A solid run of characters is its own trim.
pub proof fn lemma_trim_solid(s: Seq<char>)
    requires
        s.len() > 0,
        solid(s),
    ensures
        trim(s) == s,
{
    assert(!white_space(s[0]));
    assert(lead(s, 0) == 0);
    assert(!white_space(s[s.len() - 1]));
    assert(tail(s, s.len() as int) == s.len());
    assert(s.subrange(0, s.len() as int) =~= s);
}

proof fn lemma_digits_solid(d: Seq<char>)
    requires
        all_digits(d),
    ensures
        solid(d),
{
    assert forall|i: int| 0 <= i < d.len() implies !white_space(#[trigger] d[i]) by {
        assert(is_digit(d[i]));
    }
}

/// A whole number followed by a unit reads as that number and unit.
proof fn lemma_duration_parts(q: nat, u: Seq<char>)
    requires
        u.len() > 0,
        alpha(u[0]),
        solid(u),
    ensures
        duration_num(dec(q) + u) == dec(q),
        duration_unit(dec(q) + u) == u,
{
    lemma_dec(q);
    let d = dec(q);
    let s = d + u;
    assert forall|j: int| 0 <= j < d.len() implies is_digit(#[trigger] s[j]) by {
        assert(s[j] == d[j]);
    }
    assert(s[d.len() as int] == u[0]);
    lemma_alpha_from_digits(s, d.len() as int, 0);
    assert(s.take(d.len() as int) =~= d);
    lemma_digits_solid(d);
    lemma_trim_solid(d);
    assert(s.skip(d.len() as int) =~= u);
    lemma_trim_solid(u);
}

/// The number of a whole-number pause, scaled.
proof fn lemma_duration_number(q: nat, mult: nat)
    ensures
        decimal_ok(dec(q)),
        !below_zero(dec(q)),
        twice_scaled(dec(q), mult) == 2 * mult * q,
        frac_exact(2 * mult, frac_digits(dec(q))),
{
    lemma_dec(q);
    let d = dec(q);
    assert(is_digit(d[0]));
    assert(unsigned_part(d) == d);
    lemma_dot_none(d, 0);
    assert(d.take(d.len() as int) =~= d);
    assert(int_digits(d) == d);
    assert(frac_digits(d) == Seq::<char>::empty());
    assert(all_digits(Seq::<char>::empty()));
    assert(digits_value(Seq::<char>::empty()) == 0);
    assert(pow10(0) == 1);
    assert(frac_floor(2 * mult, frac_digits(d)) == 0);
}

/// A pause as `render` writes it reads back as the same pause.
pub proof fn lemma_duration_text(d: u32)
    ensures
        duration_of(duration_text(d)) == Some(d),
{
    reveal_strlit("s");
    reveal_strlit("ms");
    reveal_strlit("us");
    reveal_strlit("µs");
    reveal_strlit("m");
    reveal_strlit("min");
    let (q, u, mult): (nat, Seq<char>, nat) = if d % 1_000_000 == 0 {
        ((d / 1_000_000) as nat, "s"@, 1_000_000)
    } else if d % 1000 == 0 {
        ((d / 1000) as nat, "ms"@, 1000)
    } else {
        (d as nat, "us"@, 1)
    };
    assert(duration_text(d) == dec(q) + u);
    assert(solid(u));
    lemma_duration_parts(q, u);
    assert(unit_us(u) == Some(mult));
    lemma_duration_number(q, mult);
    assert(mult * q == d);
    let s = duration_text(d);
    assert(duration_num(s) == dec(q));
    assert(unit_us(duration_unit(s)) == Some(mult));
    let twice = twice_scaled(dec(q), mult);
    assert(2 * mult * q == 2 * (mult * q)) by (nonlinear_arith);
    assert(twice == 2 * d);
    assert(((twice + 1) / 2) as u32 == d);
}

// ---- names -------------------------------------------------------------------------

pub proof fn lemma_dec_word(n: nat)
    ensures
        word_ok(dec(n)),
{
    lemma_dec(n);
    lemma_digits_solid(dec(n));
    assert forall|i: int| 0 <= i < dec(n).len() implies #[trigger] dec(n)[i] != '#' by {
        assert(is_digit(dec(n)[i]));
    }
}

/// The word `render` writes for a key reads back as that key.
pub proof fn lemma_key_text(c: u16)
    ensures
        word_ok(key_text(c)),
        key_code_of(key_text(c)) == Some(c),
{
    match code_pos(KEYS@, c) {
        Some(i) => {
            assert(first_code(KEYS@, c, i));
            assert(KEYS@[i].1 == c);
            lemma_key_name_reads_back(i);
        },
        None => {
            lemma_dec_word(c as nat);
            lemma_unsigned_dec(c as nat, 65535);
        },
    }
}

/// A button name: a lower-case word without a `btn_` prefix, starting with
/// a letter.
proof fn lemma_button_word(n: Seq<char>)
    requires
        n.len() >= 4,
        'a' <= n[0] <= 'z',
        n[0] != 'b' || n[1] != 't',
        forall|k: int| 0 <= k < n.len() ==> 'a' <= #[trigger] n[k] <= 'z',
    ensures
        word_ok(n),
        unsigned_value(n, 65535) is None,
        bare_button_name(lower_all(n)) == n,
{
    reveal_strlit("btn_");
    assert forall|k: int| 0 <= k < n.len() implies !white_space(#[trigger] n[k]) by {
        assert('a' <= n[k] <= 'z');
    }
    assert(!is_digit(n[0]));
    assert(lower_all(n) =~= n) by {
        assert forall|k: int| 0 <= k < n.len() implies lower_all(n)[k] == n[k] by {
            assert('a' <= n[k] <= 'z');
        }
    }
    assert(n.take(4) != "btn_"@) by {
        if n[0] == 'b' {
            assert(n.take(4)[1] != "btn_"@[1]);
        } else {
            assert(n.take(4)[0] != "btn_"@[0]);
        }
    }
}

/// The button table: every name is a script word that reads back as its code.
proof fn lemma_button_names()
    ensures
        forall|i: int|
            0 <= i < 8 ==> word_ok(#[trigger] BUTTONS@[i].0@) && button_code_of(BUTTONS@[i].0@) == Some(
                BUTTONS@[i].1,
            ),
{
    reveal_strlit("left");
    reveal_strlit("right");
    reveal_strlit("middle");
    reveal_strlit("side");
    reveal_strlit("extra");
    reveal_strlit("forward");
    reveal_strlit("back");
    reveal_strlit("task");
    let t = BUTTONS@;
    assert forall|i: int| 0 <= i < 8 implies word_ok(#[trigger] t[i].0@) && button_code_of(t[i].0@)
        == Some(t[i].1) by {
        let n = t[i].0@;
        assert(n.len() >= 4 && 'a' <= n[0] <= 'z' && (n[0] != 'b' || n[1] != 't') && forall|k: int|
            0 <= k < n.len() ==> 'a' <= #[trigger] n[k] <= 'z') by {
            if i == 0 {
            } else if i == 1 {
            } else if i == 2 {
            } else if i == 3 {
            } else if i == 4 {
            } else if i == 5 {
            } else if i == 6 {
            } else {
            }
        }
        lemma_button_word(n);
        assert forall|j: int| 0 <= j < i implies #[trigger] t[j].0@ != n by {
            assert(t[j].0@[0] != n[0]);
        }
        assert(first_name(t, n, i));
        assert(name_pos(t, n) == Some(i));
        assert(code_named(t, n) == Some(t[i].1));
    }
}

/// The name `button_name` gives any button code is one script word, and
/// reads back, through `button_code`, as that code.
pub proof fn law_button_name_then_code(c: u16)
    ensures
        word_ok(button_name_of(c)),
        button_code_of(button_name_of(c)) == Some(c),
{
    match code_pos(BUTTONS@, c) {
        Some(i) => {
            assert(first_code(BUTTONS@, c, i));
            lemma_button_names();
            assert(word_ok(BUTTONS@[i].0@));
        },
        None => {
            lemma_dec_word(c as nat);
            lemma_unsigned_dec(c as nat, 65535);
        },
    }
}

// ---- one line at a time -------------------------------------------------------------

/// A word of lower-case letters is its own lower case.
proof fn lemma_lower_word(n: Seq<char>)
    requires
        forall|k: int| 0 <= k < n.len() ==> 'a' <= #[trigger] n[k] <= 'z',
    ensures
        lower_all(n) == n,
{
    assert(lower_all(n) =~= n) by {
        assert forall|k: int| 0 <= k < n.len() implies lower_all(n)[k] == n[k] by {
            assert('a' <= n[k] <= 'z');
        }
    }
}

proof fn lemma_dec_int_word(v: int)
    ensures
        word_ok(dec_int(v)),
        dec_int(v)[0] == '-' || is_digit(dec_int(v)[0]),
        lower_all(dec_int(v)) == dec_int(v),
{
    let n = if v < 0 {
        (-v) as nat
    } else {
        v as nat
    };
    lemma_dec(n);
    let t = dec_int(v);
    assert forall|i: int| 0 <= i < t.len() implies !white_space(#[trigger] t[i]) && t[i] != '#'
        && (t[i] == '-' || is_digit(t[i])) by {
        if v < 0 {
            if i > 0 {
                assert(t[i] == dec(n)[i - 1]);
                assert(is_digit(dec(n)[i - 1]));
            }
        } else {
            assert(is_digit(dec(n)[i]));
        }
    }
    assert(lower_all(t) =~= t) by {
        assert forall|k: int| 0 <= k < t.len() implies lower_all(t)[k] == t[k] by {
            assert(t[k] == '-' || is_digit(t[k]));
        }
    }
}

/// `move X Y` and `moverel X Y`.
pub proof fn lemma_step_move(st: Script, verb: Seq<char>, kind: EventType, x: i32, y: i32)
    requires
        (verb == "move"@ && kind == EventType::MoveAbs) || (verb == "moverel"@ && kind
            == EventType::MoveRel),
    ensures
        step(st, seq![verb, dec_int(x as int), dec_int(y as int)]) == Ok::<Script, Seq<char>>(
            emit(st, ev(kind, 0, x, y, st.pending)),
        ),
{
    reveal_strlit("screen");
    reveal_strlit("repeat");
    reveal_strlit("speed");
    reveal_strlit("wait");
    reveal_strlit("sleep");
    reveal_strlit("delay");
    reveal_strlit("move");
    reveal_strlit("moveto");
    reveal_strlit("moverel");
    reveal_strlit("buttondown");
    reveal_strlit("buttonup");
    reveal_strlit("click");
    reveal_strlit("keydown");
    reveal_strlit("keyup");
    reveal_strlit("key");
    reveal_strlit("scroll");
    lemma_lower_word(verb);
    lemma_signed_dec(x as int, i32::MIN as int, i32::MAX as nat);
    lemma_signed_dec(y as int, i32::MIN as int, i32::MAX as nat);
    let ws = seq![verb, dec_int(x as int), dec_int(y as int)];
    let args = ws.drop_first();
    assert(args =~= seq![dec_int(x as int), dec_int(y as int)]);
    let cmd = lower_all(ws[0]);
    assert(cmd == verb);
    assert("move"@ != "wait"@) by {
        assert("move"@[0] != "wait"@[0]);
    }
    assert(cmd != "screen"@ && cmd != "repeat"@ && cmd != "speed"@ && cmd != "wait"@ && cmd
        != "sleep"@ && cmd != "delay"@);
    assert(int_arg(cmd, args, 0) == Ok::<i32, Seq<char>>(x));
    assert(int_arg(cmd, args, 1) == Ok::<i32, Seq<char>>(y));
    if kind == EventType::MoveAbs {
        assert(step(st, ws) == step_move(st, cmd, args, kind));
    } else {
        assert(cmd != "move"@ && cmd != "moveto"@);
        assert(step(st, ws) == step_move(st, cmd, args, kind));
    }
}

/// `scroll X Y`.
pub proof fn lemma_step_scroll(st: Script, x: i32, y: i32)
    ensures
        step(st, seq!["scroll"@, dec_int(x as int), dec_int(y as int)]) == Ok::<Script, Seq<char>>(
            emit(st, ev(EventType::Scroll, 0, x, y, st.pending)),
        ),
{
    reveal_strlit("screen");
    reveal_strlit("repeat");
    reveal_strlit("speed");
    reveal_strlit("wait");
    reveal_strlit("sleep");
    reveal_strlit("delay");
    reveal_strlit("move");
    reveal_strlit("moveto");
    reveal_strlit("moverel");
    reveal_strlit("buttondown");
    reveal_strlit("buttonup");
    reveal_strlit("click");
    reveal_strlit("keydown");
    reveal_strlit("keyup");
    reveal_strlit("key");
    reveal_strlit("scroll");
    reveal_strlit("up");
    reveal_strlit("down");
    reveal_strlit("left");
    reveal_strlit("right");
    lemma_lower_word("scroll"@);
    lemma_dec_int_word(x as int);
    lemma_signed_dec(x as int, i32::MIN as int, i32::MAX as nat);
    lemma_signed_dec(y as int, i32::MIN as int, i32::MAX as nat);
    let ws = seq!["scroll"@, dec_int(x as int), dec_int(y as int)];
    let args = ws.drop_first();
    assert(args =~= seq![dec_int(x as int), dec_int(y as int)]);
    let f = lower_all(args[0]);
    assert(f[0] != 'u' && f[0] != 'd' && f[0] != 'l' && f[0] != 'r');
    assert(f != "up"@ && f != "down"@ && f != "left"@ && f != "right"@) by {
        if f == "up"@ {
            assert(f[0] == "up"@[0]);
        }
        if f == "down"@ {
            assert(f[0] == "down"@[0]);
        }
        if f == "left"@ {
            assert(f[0] == "left"@[0]);
        }
        if f == "right"@ {
            assert(f[0] == "right"@[0]);
        }
    }
    let cmd = lower_all(ws[0]);
    assert(cmd == "scroll"@);
    assert(cmd != "screen"@) by {
        assert("scroll"@[3] != "screen"@[3]);
    }
    assert(cmd != "repeat"@) by {
        assert("scroll"@[0] != "repeat"@[0]);
    }
    assert(cmd != "moveto"@) by {
        assert("scroll"@[0] != "moveto"@[0]);
    }
    assert(scroll_amount(cmd, args) == Ok::<(i32, i32), Seq<char>>((x, y)));
    assert(step(st, ws) == step_scroll(st, cmd, args));
}

/// `buttondown B` and `buttonup B`.
pub proof fn lemma_step_button(st: Script, code: u16, down: bool)
    ensures
        step(
            st,
            seq![if down { "buttondown"@ } else { "buttonup"@ }, button_name_of(code)],
        ) == Ok::<Script, Seq<char>>(
            emit(
                st,
                ev(
                    if down {
                        EventType::ButtonPress
                    } else {
                        EventType::ButtonRelease
                    },
                    code,
                    0,
                    0,
                    st.pending,
                ),
            ),
        ),
{
    reveal_strlit("screen");
    reveal_strlit("repeat");
    reveal_strlit("speed");
    reveal_strlit("wait");
    reveal_strlit("sleep");
    reveal_strlit("delay");
    reveal_strlit("move");
    reveal_strlit("moveto");
    reveal_strlit("moverel");
    reveal_strlit("buttondown");
    reveal_strlit("buttonup");
    reveal_strlit("click");
    reveal_strlit("keydown");
    reveal_strlit("keyup");
    reveal_strlit("key");
    reveal_strlit("scroll");
    let verb = if down {
        "buttondown"@
    } else {
        "buttonup"@
    };
    lemma_lower_word(verb);
    law_button_name_then_code(code);
    let ws = seq![verb, button_name_of(code)];
    let args = ws.drop_first();
    assert(args =~= seq![button_name_of(code)]);
    let cmd = lower_all(ws[0]);
    assert(cmd == verb);
    assert(step(st, ws) == step_button(st, cmd, args));
}

/// `keydown K` and `keyup K`.
pub proof fn lemma_step_key(st: Script, code: u16, down: bool)
    ensures
        step(st, seq![if down { "keydown"@ } else { "keyup"@ }, key_text(code)]) == Ok::<
            Script,
            Seq<char>,
        >(
            emit(
                st,
                ev(
                    if down {
                        EventType::KeyPress
                    } else {
                        EventType::KeyRelease
                    },
                    code,
                    0,
                    0,
                    st.pending,
                ),
            ),
        ),
{
    reveal_strlit("screen");
    reveal_strlit("repeat");
    reveal_strlit("speed");
    reveal_strlit("wait");
    reveal_strlit("sleep");
    reveal_strlit("delay");
    reveal_strlit("move");
    reveal_strlit("moveto");
    reveal_strlit("moverel");
    reveal_strlit("buttondown");
    reveal_strlit("buttonup");
    reveal_strlit("click");
    reveal_strlit("keydown");
    reveal_strlit("keyup");
    reveal_strlit("key");
    reveal_strlit("scroll");
    let verb = if down {
        "keydown"@
    } else {
        "keyup"@
    };
    lemma_lower_word(verb);
    lemma_key_text(code);
    let ws = seq![verb, key_text(code)];
    let args = ws.drop_first();
    assert(args =~= seq![key_text(code)]);
    let cmd = lower_all(ws[0]);
    assert(cmd == verb);
    assert(cmd != "moverel"@) by {
        assert(verb[0] != "moverel"@[0]);
    }
    assert(cmd != "speed"@ && cmd != "sleep"@ && cmd != "delay"@ && cmd != "click"@) by {
        assert(verb[0] == 'k');
    }
    assert(step(st, ws) == step_key(st, cmd, args));
}

/// A pause as `render` writes it is one script word.
proof fn lemma_duration_word(d: u32)
    ensures
        word_ok(duration_text(d)),
{
    reveal_strlit("s");
    reveal_strlit("ms");
    reveal_strlit("us");
    let (q, u): (nat, Seq<char>) = if d % 1_000_000 == 0 {
        ((d / 1_000_000) as nat, "s"@)
    } else if d % 1000 == 0 {
        ((d / 1000) as nat, "ms"@)
    } else {
        (d as nat, "us"@)
    };
    lemma_dec_word(q);
    let t = dec(q) + u;
    assert(t == duration_text(d));
    assert forall|i: int| 0 <= i < t.len() implies !white_space(#[trigger] t[i]) && t[i] != '#' by {
        if i < dec(q).len() {
            assert(t[i] == dec(q)[i]);
        } else {
            assert(t[i] == u[i - dec(q).len()]);
        }
    }
}

/// `wait D` after no pause.
pub proof fn lemma_step_wait(st: Script, d: u32)
    requires
        st.pending == 0,
    ensures
        step(st, seq!["wait"@, duration_text(d)]) == Ok::<Script, Seq<char>>(
            Script { header: st.header, events: st.events, pending: d },
        ),
{
    reveal_strlit("screen");
    reveal_strlit("repeat");
    reveal_strlit("speed");
    reveal_strlit("wait");
    reveal_strlit("sleep");
    reveal_strlit("delay");
    reveal_strlit("move");
    reveal_strlit("moveto");
    reveal_strlit("moverel");
    reveal_strlit("buttondown");
    reveal_strlit("buttonup");
    reveal_strlit("click");
    reveal_strlit("keydown");
    reveal_strlit("keyup");
    reveal_strlit("key");
    reveal_strlit("scroll");
    lemma_lower_word("wait"@);
    lemma_duration_text(d);
    let ws = seq!["wait"@, duration_text(d)];
    let args = ws.drop_first();
    assert(args =~= seq![duration_text(d)]);
    let cmd = lower_all(ws[0]);
    assert(cmd == "wait"@);
    assert(step(st, ws) == step_wait(st, cmd, args));
}

/// The `screen` word: width, `x`, height.
pub open spec fn screen_word(w: u32, h: u32) -> Seq<char> {
    dec(w as nat) + "x"@ + dec(h as nat)
}

proof fn lemma_screen_word(w: u32, h: u32)
    ensures
        word_ok(screen_word(w, h)),
        x_from(screen_word(w, h), 0) == dec(w as nat).len(),
        screen_word(w, h).take(dec(w as nat).len() as int) == dec(w as nat),
        screen_word(w, h).skip(dec(w as nat).len() + 1int) == dec(h as nat),
{
    reveal_strlit("x");
    lemma_dec_word(w as nat);
    lemma_dec_word(h as nat);
    lemma_dec(w as nat);
    lemma_dec(h as nat);
    let a = dec(w as nat);
    let b = dec(h as nat);
    let t = screen_word(w, h);
    assert forall|i: int| 0 <= i < t.len() implies !white_space(#[trigger] t[i]) && t[i] != '#' by {
        if i < a.len() {
            assert(t[i] == a[i]);
            assert(is_digit(a[i]));
        } else if i > a.len() {
            assert(t[i] == b[i - a.len() - 1]);
            assert(is_digit(b[i - a.len() - 1]));
        }
    }
    assert forall|j: int| 0 <= j < a.len() implies is_digit(#[trigger] t[j]) by {
        assert(t[j] == a[j]);
    }
    lemma_x_from_digits(t, a.len() as int, 0);
    assert(t.take(a.len() as int) =~= a);
    assert(t.skip(a.len() + 1int) =~= b);
}

proof fn lemma_x_from_digits(s: Seq<char>, n: int, i: int)
    requires
        0 <= i <= n < s.len(),
        forall|j: int| 0 <= j < n ==> is_digit(#[trigger] s[j]),
        s[n] == 'x',
    ensures
        x_from(s, i) == n,
    decreases n - i,
{
    if i < n {
        assert(is_digit(s[i]));
        lemma_x_from_digits(s, n, i + 1);
    }
}

/// `screen WxH`.
#[verifier::spinoff_prover]
#[verifier::rlimit(40)]
pub proof fn lemma_step_screen(st: Script, w: u32, h: u32)
    ensures
        step(st, seq!["screen"@, screen_word(w, h)]) == Ok::<Script, Seq<char>>(
            with_header(
                st,
                Header {
                    screen_w: w,
                    screen_h: h,
                    repeat: st.header.repeat,
                    speed_percent: st.header.speed_percent,
                },
            ),
        ),
{
    reveal_strlit("screen");
    reveal_strlit("repeat");
    reveal_strlit("speed");
    reveal_strlit("wait");
    reveal_strlit("sleep");
    reveal_strlit("delay");
    reveal_strlit("move");
    reveal_strlit("moveto");
    reveal_strlit("moverel");
    reveal_strlit("buttondown");
    reveal_strlit("buttonup");
    reveal_strlit("click");
    reveal_strlit("keydown");
    reveal_strlit("keyup");
    reveal_strlit("key");
    reveal_strlit("scroll");
    lemma_lower_word("screen"@);
    lemma_screen_word(w, h);
    lemma_unsigned_dec(w as nat, u32::MAX as nat);
    lemma_unsigned_dec(h as nat, u32::MAX as nat);
    let ws = seq!["screen"@, screen_word(w, h)];
    let args = ws.drop_first();
    assert(args =~= seq![screen_word(w, h)]);
    let cmd = lower_all(ws[0]);
    assert(cmd == "screen"@);
    assert(step(st, ws) == step_screen(st, cmd, args));
}

/// `repeat N`.
pub proof fn lemma_step_repeat(st: Script, n: u32)
    ensures
        step(st, seq!["repeat"@, dec(n as nat)]) == Ok::<Script, Seq<char>>(
            with_header(
                st,
                Header {
                    screen_w: st.header.screen_w,
                    screen_h: st.header.screen_h,
                    repeat: n,
                    speed_percent: st.header.speed_percent,
                },
            ),
        ),
{
    reveal_strlit("screen");
    reveal_strlit("repeat");
    reveal_strlit("speed");
    reveal_strlit("wait");
    reveal_strlit("sleep");
    reveal_strlit("delay");
    reveal_strlit("move");
    reveal_strlit("moveto");
    reveal_strlit("moverel");
    reveal_strlit("buttondown");
    reveal_strlit("buttonup");
    reveal_strlit("click");
    reveal_strlit("keydown");
    reveal_strlit("keyup");
    reveal_strlit("key");
    reveal_strlit("scroll");
    lemma_lower_word("repeat"@);
    lemma_unsigned_dec(n as nat, u32::MAX as nat);
    let ws = seq!["repeat"@, dec(n as nat)];
    let args = ws.drop_first();
    assert(args =~= seq![dec(n as nat)]);
    let cmd = lower_all(ws[0]);
    assert(cmd == "repeat"@);
    assert(cmd != "screen"@) by {
        assert("repeat"@[0] != "screen"@[0]);
    }
    assert(step(st, ws) == step_repeat(st, cmd, args));
}

/// `speed N`, for a speed above zero.
pub proof fn lemma_step_speed(st: Script, n: u32)
    requires
        n != 0,
    ensures
        step(st, seq!["speed"@, dec(n as nat)]) == Ok::<Script, Seq<char>>(
            with_header(
                st,
                Header {
                    screen_w: st.header.screen_w,
                    screen_h: st.header.screen_h,
                    repeat: st.header.repeat,
                    speed_percent: n,
                },
            ),
        ),
{
    reveal_strlit("screen");
    reveal_strlit("repeat");
    reveal_strlit("speed");
    reveal_strlit("wait");
    reveal_strlit("sleep");
    reveal_strlit("delay");
    reveal_strlit("move");
    reveal_strlit("moveto");
    reveal_strlit("moverel");
    reveal_strlit("buttondown");
    reveal_strlit("buttonup");
    reveal_strlit("click");
    reveal_strlit("keydown");
    reveal_strlit("keyup");
    reveal_strlit("key");
    reveal_strlit("scroll");
    lemma_lower_word("speed"@);
    lemma_unsigned_dec(n as nat, u32::MAX as nat);
    let ws = seq!["speed"@, dec(n as nat)];
    let args = ws.drop_first();
    assert(args =~= seq![dec(n as nat)]);
    let cmd = lower_all(ws[0]);
    assert(cmd == "speed"@);
    assert(step(st, ws) == step_speed(st, cmd, args));
}

// ---- the lines of a rendered script -------------------------------------------------

/// An event whose fields are those its script line can say: a position or
/// amount for motion and scrolling (no code), a code for buttons and keys
/// (no position).
pub open spec fn plain_event(e: Event) -> bool {
    match e.kind {
        EventType::MoveAbs | EventType::MoveRel | EventType::Scroll => e.code == 0,
        _ => e.x == 0 && e.y == 0,
    }
}

/// The words of the line `render` writes for an event.
pub open spec fn event_words(e: Event) -> Seq<Seq<char>> {
    match e.kind {
        EventType::MoveAbs => seq!["move"@, dec_int(e.x as int), dec_int(e.y as int)],
        EventType::MoveRel => seq!["moverel"@, dec_int(e.x as int), dec_int(e.y as int)],
        EventType::ButtonPress => seq!["buttondown"@, button_name_of(e.code)],
        EventType::ButtonRelease => seq!["buttonup"@, button_name_of(e.code)],
        EventType::KeyPress => seq!["keydown"@, key_text(e.code)],
        EventType::KeyRelease => seq!["keyup"@, key_text(e.code)],
        EventType::Scroll => seq!["scroll"@, dec_int(e.x as int), dec_int(e.y as int)],
    }
}

/// The lines `render` writes for an event: its pause, if any, then the event.
pub open spec fn event_lines(e: Event) -> Seq<Seq<char>> {
    (if e.delay_us > 0 {
        seq![spaced(seq!["wait"@, duration_text(e.delay_us)])]
    } else {
        seq![]
    }) + seq![spaced(event_words(e))]
}

/// The lines of all events.
pub open spec fn events_lines(es: Seq<Event>) -> Seq<Seq<char>>
    decreases es.len(),
{
    if es.len() == 0 {
        seq![]
    } else {
        events_lines(es.drop_last()) + event_lines(es.last())
    }
}

proof fn lemma_spaced2(a: Seq<char>, b: Seq<char>)
    ensures
        spaced(seq![a, b]) == a + seq![' '] + b,
{
    let ws = seq![a, b];
    assert(ws.drop_first() =~= seq![b]);
    assert(spaced(seq![b]) == b);
}

proof fn lemma_spaced3(a: Seq<char>, b: Seq<char>, c: Seq<char>)
    ensures
        spaced(seq![a, b, c]) == a + seq![' '] + b + seq![' '] + c,
{
    let ws = seq![a, b, c];
    assert(ws.drop_first() =~= seq![b, c]);
    lemma_spaced2(b, c);
    assert(a + seq![' '] + (b + seq![' '] + c) =~= a + seq![' '] + b + seq![' '] + c);
}

/// The words of an event line are script words.
proof fn lemma_event_words_ok(e: Event)
    ensures
        event_words(e).len() > 0,
        forall|i: int| 0 <= i < event_words(e).len() ==> word_ok(#[trigger] event_words(e)[i]),
{
    reveal_strlit("move");
    reveal_strlit("moverel");
    reveal_strlit("buttondown");
    reveal_strlit("buttonup");
    reveal_strlit("keydown");
    reveal_strlit("keyup");
    reveal_strlit("scroll");
    let ws = event_words(e);
    lemma_letters_word(ws[0]);
    match e.kind {
        EventType::MoveAbs | EventType::MoveRel | EventType::Scroll => {
            lemma_dec_int_word(e.x as int);
            lemma_dec_int_word(e.y as int);
        },
        EventType::ButtonPress | EventType::ButtonRelease => {
            law_button_name_then_code(e.code);
        },
        _ => {
            lemma_key_text(e.code);
        },
    }
    assert forall|i: int| 0 <= i < ws.len() implies word_ok(#[trigger] ws[i]) by {
        if i == 0 {
        } else if i == 1 {
        } else {
        }
    }
}

/// A word of lower-case letters is a script word.
proof fn lemma_letters_word(n: Seq<char>)
    requires
        n.len() > 0,
        forall|k: int| 0 <= k < n.len() ==> 'a' <= #[trigger] n[k] <= 'z',
    ensures
        word_ok(n),
{
    assert forall|k: int| 0 <= k < n.len() implies !white_space(#[trigger] n[k]) && n[k] != '#' by {
        assert('a' <= n[k] <= 'z');
    }
}

/// What `render` writes for an event is its lines, joined.
proof fn lemma_event_text(e: Event)
    ensures
        event_text(e) == joined(event_lines(e)),
{
    reveal_strlit("move ");
    reveal_strlit("moverel ");
    reveal_strlit("buttondown ");
    reveal_strlit("buttonup ");
    reveal_strlit("keydown ");
    reveal_strlit("keyup ");
    reveal_strlit("scroll ");
    reveal_strlit("move");
    reveal_strlit("moverel");
    reveal_strlit("buttondown");
    reveal_strlit("buttonup");
    reveal_strlit("keydown");
    reveal_strlit("keyup");
    reveal_strlit("scroll");
    reveal_strlit("wait ");
    reveal_strlit("wait");
    reveal_strlit(" ");
    reveal_strlit("\n");
    let ws = event_words(e);
    let line = spaced(ws);
    match e.kind {
        EventType::MoveAbs | EventType::MoveRel | EventType::Scroll => {
            lemma_spaced3(ws[0], ws[1], ws[2]);
        },
        _ => {
            lemma_spaced2(ws[0], ws[1]);
        },
    }
    assert(event_line(e) =~= line + seq!['\n']);
    assert(joined(seq![line]) =~= line + seq!['\n']) by {
        assert(seq![line].drop_first() =~= Seq::<Seq<char>>::empty());
        assert(joined(Seq::<Seq<char>>::empty()) =~= Seq::<char>::empty());
    }
    if e.delay_us > 0 {
        let wl = spaced(seq!["wait"@, duration_text(e.delay_us)]);
        lemma_spaced2("wait"@, duration_text(e.delay_us));
        assert(event_lines(e) =~= seq![wl, line]);
        assert(seq![wl, line].drop_first() =~= seq![line]);
        assert(joined(seq![wl, line]) =~= wl + seq!['\n'] + (line + seq!['\n']));
        assert(event_text(e) =~= joined(event_lines(e)));
    } else {
        assert(event_lines(e) =~= seq![line]);
        assert(event_text(e) =~= joined(event_lines(e)));
    }
}

/// What `render` writes for the events is their lines, joined.
proof fn lemma_events_text(es: Seq<Event>)
    ensures
        events_text(es) == joined(events_lines(es)),
    decreases es.len(),
{
    if es.len() == 0 {
        assert(joined(Seq::<Seq<char>>::empty()) == Seq::<char>::empty());
    } else {
        lemma_events_text(es.drop_last());
        lemma_event_text(es.last());
        lemma_joined_append(events_lines(es.drop_last()), event_lines(es.last()));
    }
}

// ---- the opening comment and the header ----------------------------------------------

/// No line break in `s`.
pub open spec fn no_break(s: Seq<char>) -> bool {
    forall|i: int| 0 <= i < s.len() ==> #[trigger] s[i] != '\n'
}

proof fn lemma_no_break_cat(a: Seq<char>, b: Seq<char>)
    requires
        no_break(a),
        no_break(b),
    ensures
        no_break(a + b),
{
    assert forall|i: int| 0 <= i < (a + b).len() implies #[trigger] (a + b)[i] != '\n' by {
        if i < a.len() {
            assert((a + b)[i] == a[i]);
        } else {
            assert((a + b)[i] == b[i - a.len()]);
        }
    }
}

proof fn lemma_dec_no_break(n: nat)
    ensures
        no_break(dec(n)),
{
    lemma_dec(n);
    assert forall|i: int| 0 <= i < dec(n).len() implies #[trigger] dec(n)[i] != '\n' by {
        assert(is_digit(dec(n)[i]));
    }
}

/// The opening comment without its line break.
pub open spec fn comment_text(n: nat, total: nat) -> Seq<char> {
    "# atbswp macro: "@ + dec(n) + " events, "@ + seconds_text(total) + "s"@
}

/// The opening comment is a good line, with no words.
proof fn lemma_comment(n: nat, total: nat)
    ensures
        comment_line(n, total) == comment_text(n, total) + seq!['\n'],
        line_ok(comment_text(n, total)),
        line_words(comment_text(n, total)) == Seq::<Seq<char>>::empty(),
{
    reveal_strlit("# atbswp macro: ");
    reveal_strlit(" events, ");
    reveal_strlit("s");
    reveal_strlit("s\n");
    reveal_strlit(".");
    reveal_strlit("0");
    reveal_strlit("00");
    let a: nat = crate::text::rounded_ms(total) / 1000;
    let b: nat = crate::text::rounded_ms(total) % 1000;
    lemma_dec_no_break(n);
    lemma_dec_no_break(a);
    lemma_dec_no_break(b);
    assert(no_break("# atbswp macro: "@));
    assert(no_break(" events, "@));
    assert(no_break("s"@));
    assert(no_break("."@));
    lemma_no_break_cat("0"@, dec(b));
    lemma_no_break_cat("00"@, dec(b));
    assert(no_break(three_digits(b)));
    lemma_no_break_cat(dec(a), "."@);
    lemma_no_break_cat(dec(a) + "."@, three_digits(b));
    assert(no_break(seconds_text(total)));
    let t = comment_text(n, total);
    lemma_no_break_cat("# atbswp macro: "@, dec(n));
    lemma_no_break_cat("# atbswp macro: "@ + dec(n), " events, "@);
    lemma_no_break_cat("# atbswp macro: "@ + dec(n) + " events, "@, seconds_text(total));
    lemma_no_break_cat("# atbswp macro: "@ + dec(n) + " events, "@ + seconds_text(total), "s"@);
    assert(t.last() == 's');
    assert(comment_line(n, total) =~= t + seq!['\n']);
    assert(t[0] == '#');
    assert(hash_pos(t) == 0);
    assert(t.take(0) =~= Seq::<char>::empty());
}

/// The header lines `render` writes: only the fields that differ from a new
/// macro's.
pub open spec fn header_lines(h: Header) -> Seq<Seq<char>> {
    (if h.screen_w != 0 || h.screen_h != 0 {
        seq![spaced(seq!["screen"@, screen_word(h.screen_w, h.screen_h)])]
    } else {
        seq![]
    }) + (if h.repeat != 1 {
        seq![spaced(seq!["repeat"@, dec(h.repeat as nat)])]
    } else {
        seq![]
    }) + (if h.speed_percent != 100 {
        seq![spaced(seq!["speed"@, dec(h.speed_percent as nat)])]
    } else {
        seq![]
    })
}

proof fn lemma_joined_one(l: Seq<char>)
    ensures
        joined(seq![l]) == l + seq!['\n'],
{
    assert(seq![l].drop_first() =~= Seq::<Seq<char>>::empty());
    assert(joined(Seq::<Seq<char>>::empty()) =~= Seq::<char>::empty());
    assert(joined(seq![l]) =~= l + seq!['\n']);
}

proof fn lemma_joined_empty()
    ensures
        joined(Seq::<Seq<char>>::empty()) == Seq::<char>::empty(),
{
}

/// What `render` writes for the header is its lines, joined.
proof fn lemma_header_text(h: Header)
    ensures
        header_text(h) == joined(header_lines(h)),
{
    reveal_strlit("screen ");
    reveal_strlit("screen");
    reveal_strlit("repeat ");
    reveal_strlit("repeat");
    reveal_strlit("speed ");
    reveal_strlit("speed");
    reveal_strlit("x");
    reveal_strlit("\n");
    lemma_joined_empty();
    let sl = if h.screen_w != 0 || h.screen_h != 0 {
        seq![spaced(seq!["screen"@, screen_word(h.screen_w, h.screen_h)])]
    } else {
        Seq::<Seq<char>>::empty()
    };
    let rl = if h.repeat != 1 {
        seq![spaced(seq!["repeat"@, dec(h.repeat as nat)])]
    } else {
        Seq::<Seq<char>>::empty()
    };
    let vl = if h.speed_percent != 100 {
        seq![spaced(seq!["speed"@, dec(h.speed_percent as nat)])]
    } else {
        Seq::<Seq<char>>::empty()
    };
    if h.screen_w != 0 || h.screen_h != 0 {
        lemma_spaced2("screen"@, screen_word(h.screen_w, h.screen_h));
        lemma_joined_one(spaced(seq!["screen"@, screen_word(h.screen_w, h.screen_h)]));
        assert(screen_text(h) =~= joined(sl));
    } else {
        assert(screen_text(h) =~= joined(sl));
    }
    if h.repeat != 1 {
        lemma_spaced2("repeat"@, dec(h.repeat as nat));
        lemma_joined_one(spaced(seq!["repeat"@, dec(h.repeat as nat)]));
        assert(repeat_text(h) =~= joined(rl));
    } else {
        assert(repeat_text(h) =~= joined(rl));
    }
    if h.speed_percent != 100 {
        lemma_spaced2("speed"@, dec(h.speed_percent as nat));
        lemma_joined_one(spaced(seq!["speed"@, dec(h.speed_percent as nat)]));
        assert(speed_text(h) =~= joined(vl));
    } else {
        assert(speed_text(h) =~= joined(vl));
    }
    lemma_joined_append(sl, rl);
    lemma_joined_append(sl + rl, vl);
    assert(header_lines(h) == sl + rl + vl);
}

// ---- running the rendered lines ---------------------------------------------------------

proof fn lemma_run_one(l: Seq<char>, st: Script)
    requires
        step(st, line_words(l)) is Ok,
    ensures
        run_lines(seq![l], 0, st) == Ok::<Script, (nat, Seq<char>)>(step(st, line_words(l))->Ok_0),
{
    let st2 = step(st, line_words(l))->Ok_0;
    assert(seq![l][0] == l);
    assert(run_lines(seq![l], 1, st2) == Ok::<Script, (nat, Seq<char>)>(st2));
}

proof fn lemma_run_concat(a: Seq<Seq<char>>, b: Seq<Seq<char>>, st: Script)
    requires
        run_lines(a, 0, st) is Ok,
        run_lines(b, 0, run_lines(a, 0, st)->Ok_0) is Ok,
    ensures
        run_lines(a + b, 0, st) == run_lines(b, 0, run_lines(a, 0, st)->Ok_0),
{
    lemma_run_prefix(a, b, 0, st);
    lemma_run_suffix(a, b, 0, run_lines(a, 0, st)->Ok_0);
}

/// One spaced line whose step succeeds runs as that step.
proof fn lemma_run_spaced(ws: Seq<Seq<char>>, st: Script, st2: Script)
    requires
        ws.len() > 0,
        forall|i: int| 0 <= i < ws.len() ==> word_ok(#[trigger] ws[i]),
        step(st, ws) == Ok::<Script, Seq<char>>(st2),
    ensures
        run_lines(seq![spaced(ws)], 0, st) == Ok::<Script, (nat, Seq<char>)>(st2),
{
    lemma_spaced_line(ws);
    lemma_run_one(spaced(ws), st);
}

/// Every one of `ws` is a script word.
pub open spec fn all_words_ok(ws: Seq<Seq<char>>) -> bool {
    forall|i: int| 0 <= i < ws.len() ==> word_ok(#[trigger] ws[i])
}

proof fn lemma_two_words(a: Seq<char>, b: Seq<char>)
    requires
        word_ok(a),
        word_ok(b),
    ensures
        all_words_ok(seq![a, b]),
{
    let ws = seq![a, b];
    assert forall|i: int| 0 <= i < ws.len() implies word_ok(#[trigger] ws[i]) by {
        if i == 0 {
        } else {
        }
    }
}

/// The opening comment and the header lines set the header and nothing else.
#[verifier::spinoff_prover]
#[verifier::rlimit(40)]
proof fn lemma_header_run(h: Header, n: nat, total: nat)
    requires
        h.speed_percent != 0,
    ensures
        run_lines(seq![comment_text(n, total)] + header_lines(h), 0, start()) == Ok::<
            Script,
            (nat, Seq<char>),
        >(Script { header: h, events: seq![], pending: 0 }),
{
    reveal_strlit("screen");
    reveal_strlit("repeat");
    reveal_strlit("speed");
    lemma_letters_word("screen"@);
    lemma_letters_word("repeat"@);
    lemma_letters_word("speed"@);
    let st0 = start();
    lemma_comment(n, total);
    let c = seq![comment_text(n, total)];
    assert(step(st0, line_words(comment_text(n, total))) == Ok::<Script, Seq<char>>(st0));
    lemma_run_one(comment_text(n, total), st0);
    // screen
    let sl = if h.screen_w != 0 || h.screen_h != 0 {
        seq![spaced(seq!["screen"@, screen_word(h.screen_w, h.screen_h)])]
    } else {
        Seq::<Seq<char>>::empty()
    };
    let h1 = Header { screen_w: h.screen_w, screen_h: h.screen_h, repeat: 1, speed_percent: 100 };
    let st1 = Script { header: h1, events: seq![], pending: 0 };
    if h.screen_w != 0 || h.screen_h != 0 {
        lemma_screen_word(h.screen_w, h.screen_h);
        lemma_two_words("screen"@, screen_word(h.screen_w, h.screen_h));
        lemma_step_screen(st0, h.screen_w, h.screen_h);
        lemma_run_spaced(seq!["screen"@, screen_word(h.screen_w, h.screen_h)], st0, st1);
    }
    assert(run_lines(sl, 0, st0) == Ok::<Script, (nat, Seq<char>)>(st1));
    lemma_run_concat(c, sl, st0);
    // repeat
    let rl = if h.repeat != 1 {
        seq![spaced(seq!["repeat"@, dec(h.repeat as nat)])]
    } else {
        Seq::<Seq<char>>::empty()
    };
    let h2 = Header { screen_w: h.screen_w, screen_h: h.screen_h, repeat: h.repeat, speed_percent: 100 };
    let st2 = Script { header: h2, events: seq![], pending: 0 };
    if h.repeat != 1 {
        lemma_dec_word(h.repeat as nat);
        lemma_two_words("repeat"@, dec(h.repeat as nat));
        lemma_step_repeat(st1, h.repeat);
        lemma_run_spaced(seq!["repeat"@, dec(h.repeat as nat)], st1, st2);
    }
    assert(run_lines(rl, 0, st1) == Ok::<Script, (nat, Seq<char>)>(st2));
    lemma_run_concat(c + sl, rl, st0);
    // speed
    let vl = if h.speed_percent != 100 {
        seq![spaced(seq!["speed"@, dec(h.speed_percent as nat)])]
    } else {
        Seq::<Seq<char>>::empty()
    };
    let st3 = Script { header: h, events: seq![], pending: 0 };
    if h.speed_percent != 100 {
        lemma_dec_word(h.speed_percent as nat);
        lemma_two_words("speed"@, dec(h.speed_percent as nat));
        lemma_step_speed(st2, h.speed_percent);
        lemma_run_spaced(seq!["speed"@, dec(h.speed_percent as nat)], st2, st3);
    }
    assert(run_lines(vl, 0, st2) == Ok::<Script, (nat, Seq<char>)>(st3));
    lemma_run_concat(c + sl + rl, vl, st0);
    assert(c + header_lines(h) =~= c + sl + rl + vl);
}

/// An event's line adds that event, with the pause pending.
#[verifier::spinoff_prover]
proof fn lemma_event_step(st: Script, e: Event)
    requires
        plain_event(e),
    ensures
        step(st, event_words(e)) == Ok::<Script, Seq<char>>(
            emit(st, ev(e.kind, e.code, e.x, e.y, st.pending)),
        ),
{
    match e.kind {
        EventType::MoveAbs => {
            lemma_step_move(st, "move"@, e.kind, e.x, e.y);
        },
        EventType::MoveRel => {
            lemma_step_move(st, "moverel"@, e.kind, e.x, e.y);
        },
        EventType::ButtonPress => {
            lemma_step_button(st, e.code, true);
        },
        EventType::ButtonRelease => {
            lemma_step_button(st, e.code, false);
        },
        EventType::KeyPress => {
            lemma_step_key(st, e.code, true);
        },
        EventType::KeyRelease => {
            lemma_step_key(st, e.code, false);
        },
        EventType::Scroll => {
            lemma_step_scroll(st, e.x, e.y);
        },
    }
}

/// An event's lines add that event, with its pause, to a script with no
/// pause pending.
#[verifier::spinoff_prover]
proof fn lemma_event_run(st: Script, e: Event)
    requires
        st.pending == 0,
        plain_event(e),
    ensures
        run_lines(event_lines(e), 0, st) == Ok::<Script, (nat, Seq<char>)>(
            Script { header: st.header, events: st.events.push(e), pending: 0 },
        ),
{
    reveal_strlit("wait");
    let d = e.delay_us;
    let stw = Script { header: st.header, events: st.events, pending: d };
    let done = Script { header: st.header, events: st.events.push(e), pending: 0 };
    let ws = event_words(e);
    lemma_event_words_ok(e);
    lemma_event_step(stw, e);
    assert(ev(e.kind, e.code, e.x, e.y, d) == e);
    assert(step(stw, ws) == Ok::<Script, Seq<char>>(done));
    lemma_run_spaced(ws, stw, done);
    let el = seq![spaced(ws)];
    if d > 0 {
        let wws = seq!["wait"@, duration_text(d)];
        lemma_letters_word("wait"@);
        lemma_duration_word(d);
        lemma_two_words("wait"@, duration_text(d));
        lemma_step_wait(st, d);
        lemma_run_spaced(wws, st, stw);
        let wl = seq![spaced(wws)];
        lemma_run_concat(wl, el, st);
        assert(event_lines(e) == wl + el);
    } else {
        assert(stw == st);
        assert(event_lines(e) =~= el);
    }
}

/// The lines of a header and events run to that header and those events.
proof fn lemma_events_run(h: Header, es: Seq<Event>, n: nat, total: nat)
    requires
        h.speed_percent != 0,
        forall|i: int| 0 <= i < es.len() ==> plain_event(#[trigger] es[i]),
    ensures
        run_lines(seq![comment_text(n, total)] + header_lines(h) + events_lines(es), 0, start())
            == Ok::<Script, (nat, Seq<char>)>(Script { header: h, events: es, pending: 0 }),
    decreases es.len(),
{
    let p = seq![comment_text(n, total)] + header_lines(h);
    if es.len() == 0 {
        lemma_header_run(h, n, total);
        assert(events_lines(es) == Seq::<Seq<char>>::empty());
        assert(p + events_lines(es) =~= p);
        assert(es =~= Seq::<Event>::empty());
    } else {
        let rest = es.drop_last();
        assert forall|i: int| 0 <= i < rest.len() implies plain_event(#[trigger] rest[i]) by {
            assert(rest[i] == es[i]);
        }
        lemma_events_run(h, rest, n, total);
        let s1 = Script { header: h, events: rest, pending: 0 };
        assert(plain_event(es[es.len() - 1]));
        lemma_event_run(s1, es.last());
        lemma_run_concat(p + events_lines(rest), event_lines(es.last()), start());
        assert(p + events_lines(es) =~= p + events_lines(rest) + event_lines(es.last()));
        assert(rest.push(es.last()) =~= es);
    }
}

/// Every line of the opening comment and header is a good line.
#[verifier::spinoff_prover]
proof fn lemma_head_lines_ok(h: Header, n: nat, total: nat)
    ensures
        forall|i: int|
            0 <= i < (seq![comment_text(n, total)] + header_lines(h)).len() ==> line_ok(
                #[trigger] (seq![comment_text(n, total)] + header_lines(h))[i],
            ),
{
    reveal_strlit("screen");
    reveal_strlit("repeat");
    reveal_strlit("speed");
    let ls = seq![comment_text(n, total)] + header_lines(h);
    lemma_comment(n, total);
    lemma_letters_word("screen"@);
    lemma_letters_word("repeat"@);
    lemma_letters_word("speed"@);
    lemma_screen_word(h.screen_w, h.screen_h);
    lemma_dec_word(h.repeat as nat);
    lemma_dec_word(h.speed_percent as nat);
    lemma_two_words("screen"@, screen_word(h.screen_w, h.screen_h));
    lemma_two_words("repeat"@, dec(h.repeat as nat));
    lemma_two_words("speed"@, dec(h.speed_percent as nat));
    lemma_spaced_line(seq!["screen"@, screen_word(h.screen_w, h.screen_h)]);
    lemma_spaced_line(seq!["repeat"@, dec(h.repeat as nat)]);
    lemma_spaced_line(seq!["speed"@, dec(h.speed_percent as nat)]);
    assert forall|i: int| 0 <= i < ls.len() implies line_ok(#[trigger] ls[i]) by {
        let hl = header_lines(h);
        if i > 0 {
            assert(ls[i] == hl[i - 1]);
        }
    }
}

/// Every line of an event is a good line.
#[verifier::spinoff_prover]
proof fn lemma_event_lines_ok(e: Event)
    ensures
        forall|i: int| 0 <= i < event_lines(e).len() ==> line_ok(#[trigger] event_lines(e)[i]),
{
    reveal_strlit("wait");
    lemma_event_words_ok(e);
    lemma_spaced_line(event_words(e));
    lemma_letters_word("wait"@);
    lemma_duration_word(e.delay_us);
    lemma_two_words("wait"@, duration_text(e.delay_us));
    lemma_spaced_line(seq!["wait"@, duration_text(e.delay_us)]);
}

/// Every line of a header and events is a good line.
proof fn lemma_lines_ok(h: Header, es: Seq<Event>, n: nat, total: nat)
    ensures
        forall|i: int|
            0 <= i < (seq![comment_text(n, total)] + header_lines(h) + events_lines(es)).len()
                ==> line_ok(
                #[trigger] (seq![comment_text(n, total)] + header_lines(h) + events_lines(es))[i],
            ),
    decreases es.len(),
{
    let ls = seq![comment_text(n, total)] + header_lines(h) + events_lines(es);
    if es.len() == 0 {
        lemma_head_lines_ok(h, n, total);
        assert(events_lines(es) == Seq::<Seq<char>>::empty());
        assert(ls =~= seq![comment_text(n, total)] + header_lines(h));
    } else {
        let rest = es.drop_last();
        lemma_lines_ok(h, rest, n, total);
        let e = es.last();
        let pre = seq![comment_text(n, total)] + header_lines(h) + events_lines(rest);
        assert(ls =~= pre + event_lines(e));
        lemma_event_lines_ok(e);
        assert forall|i: int| 0 <= i < ls.len() implies line_ok(#[trigger] ls[i]) by {
            if i < pre.len() {
                assert(ls[i] == pre[i]);
            } else {
                assert(ls[i] == event_lines(e)[i - pre.len()]);
            }
        }
    }
}

/// What `render` writes is the opening comment, the header lines and the
/// event lines, joined.
proof fn lemma_rendered_lines(h: Header, es: Seq<Event>)
    ensures
        rendered(h, es) == joined(
            seq![comment_text(es.len(), crate::format::total_delay(es))] + header_lines(h)
                + events_lines(es),
        ),
{
    let c = comment_text(es.len(), crate::format::total_delay(es));
    lemma_comment(es.len(), crate::format::total_delay(es));
    lemma_joined_one(c);
    lemma_header_text(h);
    lemma_events_text(es);
    lemma_joined_append(seq![c], header_lines(h));
    lemma_joined_append(seq![c] + header_lines(h), events_lines(es));
}

/// A script `render` writes reads back, through `parse`, as the header and
/// events it was written from: every event whose fields its line can say,
/// under any header whose speed `parse` accepts (not zero).
pub proof fn law_render_then_parse(h: Header, es: Seq<Event>)
    requires
        h.speed_percent != 0,
        forall|i: int| 0 <= i < es.len() ==> plain_event(#[trigger] es[i]),
    ensures
        script(rendered(h, es)) == Ok::<(Header, Seq<Event>), (nat, Seq<char>)>((h, es)),
{
    let n = es.len();
    let total = crate::format::total_delay(es);
    let ls = seq![comment_text(n, total)] + header_lines(h) + events_lines(es);
    lemma_rendered_lines(h, es);
    lemma_lines_ok(h, es, n, total);
    lemma_lines_joined(ls);
    lemma_events_run(h, es, n, total);
    assert(finish(Script { header: h, events: es, pending: 0 }) == es);
}

} // verus!
