//! Decimal text of integers: the digits the script renderer and the error
//! messages write, and the `FromStr`-style readers the script parser uses.

use vstd::prelude::*;
use vstd::string::*;

verus! {

/// The ASCII character of decimal digit `d`.
pub open spec fn digit_char(d: nat) -> char {
    (48 + d) as char
}

/// Decimal digits of `n`, no sign, no leading zeros.
pub open spec fn dec(n: nat) -> Seq<char>
    decreases n,
{
    if n < 10 {
        seq![digit_char(n)]
    } else {
        dec(n / 10).push(digit_char(n % 10))
    }
}

/// Decimal text of a signed value: `-` then the digits of its magnitude.
pub open spec fn dec_int(v: int) -> Seq<char> {
    if v < 0 {
        seq!['-'] + dec((-v) as nat)
    } else {
        dec(v as nat)
    }
}

/// Append one decimal digit.
pub fn append_digit(s: &mut String, d: u64)
    requires
        d < 10,
    ensures
        final(s)@ == old(s)@.push(digit_char(d as nat)),
{
    match d {
        0 => { s.append("0"); proof { reveal_strlit("0"); } }
        1 => { s.append("1"); proof { reveal_strlit("1"); } }
        2 => { s.append("2"); proof { reveal_strlit("2"); } }
        3 => { s.append("3"); proof { reveal_strlit("3"); } }
        4 => { s.append("4"); proof { reveal_strlit("4"); } }
        5 => { s.append("5"); proof { reveal_strlit("5"); } }
        6 => { s.append("6"); proof { reveal_strlit("6"); } }
        7 => { s.append("7"); proof { reveal_strlit("7"); } }
        8 => { s.append("8"); proof { reveal_strlit("8"); } }
        _ => { s.append("9"); proof { reveal_strlit("9"); } }
    }
}

/// Append the decimal text of `v`.
pub fn append_dec(s: &mut String, v: u64)
    ensures
        final(s)@ == old(s)@ + dec(v as nat),
    decreases v,
{
    if v >= 10 {
        append_dec(s, v / 10);
    }
    append_digit(s, v % 10);
    assert(final(s)@ =~= old(s)@ + dec(v as nat));
}

/// Append the decimal text of a signed value.
pub fn append_dec_i64(s: &mut String, v: i64)
    ensures
        final(s)@ == old(s)@ + dec_int(v as int),
{
    if v < 0 {
        s.append("-");
        proof { reveal_strlit("-"); }
        let m: u64 = if v == i64::MIN { 0x8000_0000_0000_0000u64 } else { (-v) as u64 };
        append_dec(s, m);
        assert(final(s)@ =~= old(s)@ + dec_int(v as int));
    } else {
        append_dec(s, v as u64);
    }
}

/// The decimal text of `v` as a new string.
pub fn dec_string(v: u64) -> (s: String)
    ensures
        s@ == dec(v as nat),
{
    let mut s = String::new();
    append_dec(&mut s, v);
    assert(s@ =~= dec(v as nat));
    s
}

/// `c` is an ASCII decimal digit.
pub open spec fn is_digit(c: char) -> bool {
    '0' <= c <= '9'
}

/// The value of the digit character `c`.
pub open spec fn digit_of(c: char) -> nat {
    (c as int - 48) as nat
}

/// Every character of `d` is a decimal digit.
pub open spec fn all_digits(d: Seq<char>) -> bool {
    forall|i: int| 0 <= i < d.len() ==> #[trigger] is_digit(d[i])
}

/// The number the decimal digits `d` spell.
pub open spec fn digits_value(d: Seq<char>) -> nat
    decreases d.len(),
{
    if d.len() == 0 {
        0
    } else {
        digits_value(d.drop_last()) * 10 + digit_of(d.last())
    }
}

/// The digits of an unsigned number after its optional `+`.
pub open spec fn unsigned_digits(s: Seq<char>) -> Seq<char> {
    if s.len() > 0 && s[0] == '+' {
        s.drop_first()
    } else {
        s
    }
}

/// What `FromStr` for an unsigned integer type whose largest value is `max`
/// reads from `s`: an optional `+` and at least one digit, with no other
/// character, spelling a value up to `max`.
pub open spec fn unsigned_value(s: Seq<char>, max: nat) -> Option<nat> {
    let d = unsigned_digits(s);
    if d.len() > 0 && all_digits(d) && digits_value(d) <= max {
        Some(digits_value(d))
    } else {
        None
    }
}

/// What `FromStr` for a signed integer type with range `min..=max` reads
/// from `s`: an optional sign and at least one digit, nothing else.
pub open spec fn signed_value(s: Seq<char>, min: int, max: nat) -> Option<int> {
    if s.len() > 0 && s[0] == '-' {
        let d = s.drop_first();
        if d.len() > 0 && all_digits(d) && -digits_value(d) >= min {
            Some(-digits_value(d))
        } else {
            None
        }
    } else {
        match unsigned_value(s, max) {
            Some(v) => Some(v as int),
            None => None,
        }
    }
}

/// A longer run of digits spells at least as much as its prefix.
pub proof fn lemma_digits_mono(d: Seq<char>, k: int)
    requires
        0 <= k <= d.len(),
        all_digits(d),
    ensures
        digits_value(d) >= digits_value(d.take(k)),
    decreases d.len(),
{
    if k < d.len() {
        assert(d.drop_last().take(k) =~= d.take(k));
        assert(all_digits(d.drop_last())) by {
            assert forall|i: int| 0 <= i < d.drop_last().len() implies #[trigger] is_digit(
                d.drop_last()[i],
            ) by {
                assert(is_digit(d[i]));
            }
        }
        lemma_digits_mono(d.drop_last(), k);
    } else {
        assert(d.take(k) =~= d);
    }
}

/// Read the digits `s[start..]` as a number no larger than `max`.
fn digits_upto(s: &[char], start: usize, max: u64) -> (r: Option<u64>)
    requires
        start <= s@.len(),
    ensures
        ({
            let d = s@.subrange(start as int, s@.len() as int);
            match r {
                Some(v) => d.len() > 0 && all_digits(d) && digits_value(d) <= max && v == digits_value(d),
                None => !(d.len() > 0 && all_digits(d) && digits_value(d) <= max),
            }
        }),
{
    let ghost d = s@.subrange(start as int, s@.len() as int);
    if start == s.len() {
        return None;
    }
    let mut acc: u64 = 0;
    let mut i: usize = start;
    while i < s.len()
        invariant
            start < s@.len(),
            d == s@.subrange(start as int, s@.len() as int),
            start <= i <= s@.len(),
            acc <= max,
            all_digits(d.take(i - start)),
            acc == digits_value(d.take(i - start)),
        decreases s.len() - i,
    {
        let c = s[i];
        if !(c >= '0' && c <= '9') {
            assert(!is_digit(d[i - start]));
            return None;
        }
        proof {
            let t = d.take(i - start + 1);
            assert(t.drop_last() =~= d.take(i - start));
            assert(t.last() == c);
            assert(all_digits(t)) by {
                assert forall|j: int| 0 <= j < t.len() implies #[trigger] is_digit(t[j]) by {
                    if j < t.len() - 1 {
                        assert(t[j] == d.take(i - start)[j]);
                    }
                }
            }
        }
        let dv = (c as u32 - 48) as u64;
        if dv > max || acc > (max - dv) / 10 {
            proof {
                assert(acc * 10 + dv > max);
                if all_digits(d) {
                    lemma_digits_mono(d, i - start + 1);
                }
            }
            return None;
        }
        acc = acc * 10 + dv;
        i = i + 1;
    }
    assert(d.take(i - start) =~= d);
    Some(acc)
}

/// `FromStr` for an unsigned integer type whose largest value is `max`.
pub fn parse_unsigned(s: &[char], max: u64) -> (r: Option<u64>)
    ensures
        match unsigned_value(s@, max as nat) {
            Some(v) => r == Some(v as u64),
            None => r is None,
        },
{
    let start: usize = if s.len() > 0 && s[0] == '+' { 1 } else { 0 };
    assert(s@.subrange(start as int, s@.len() as int) =~= unsigned_digits(s@));
    digits_upto(s, start, max)
}

/// `FromStr` for `i32`.
pub fn parse_i32(s: &[char]) -> (r: Option<i32>)
    ensures
        match signed_value(s@, i32::MIN as int, i32::MAX as nat) {
            Some(v) => r == Some(v as i32),
            None => r is None,
        },
{
    if s.len() > 0 && s[0] == '-' {
        assert(s@.subrange(1, s@.len() as int) =~= s@.drop_first());
        match digits_upto(s, 1, 0x8000_0000) {
            Some(v) => Some((0 - v as i64) as i32),
            None => None,
        }
    } else {
        match parse_unsigned(s, 0x7fff_ffff) {
            Some(v) => Some(v as i32),
            None => None,
        }
    }
}

/// A digit's character reads back as the digit.
pub proof fn lemma_digit_char(k: nat)
    requires
        k < 10,
    ensures
        is_digit(digit_char(k)),
        digit_of(digit_char(k)) == k,
{
    assert(digit_char(k) as int == 48 + k);
}

/// The decimal text of `n` is digits that spell `n`.
pub proof fn lemma_dec(n: nat)
    ensures
        dec(n).len() > 0,
        all_digits(dec(n)),
        digits_value(dec(n)) == n,
    decreases n,
{
    lemma_digit_char(n % 10);
    if n >= 10 {
        lemma_dec(n / 10);
        let d = dec(n);
        assert(d.drop_last() =~= dec(n / 10));
        assert(d.last() == digit_char(n % 10));
        assert(digits_value(d) == digits_value(dec(n / 10)) * 10 + digit_of(digit_char(n % 10)));
        assert((n / 10) * 10 + n % 10 == n) by (nonlinear_arith);
        assert(all_digits(d)) by {
            assert forall|i: int| 0 <= i < d.len() implies #[trigger] is_digit(d[i]) by {
                if i < d.len() - 1 {
                    assert(d[i] == dec(n / 10)[i]);
                }
            }
        }
    } else {
        let d = dec(n);
        assert(d.drop_last() =~= Seq::<char>::empty());
        assert(is_digit(d[0]));
        assert(n % 10 == n);
        assert(digits_value(d) == digits_value(d.drop_last()) * 10 + digit_of(d.last()));
    }
}

/// Reading back the decimal text of a value within range gives the value.
pub proof fn lemma_unsigned_dec(n: nat, max: nat)
    requires
        n <= max,
    ensures
        unsigned_value(dec(n), max) == Some(n),
{
    lemma_dec(n);
    assert(is_digit(dec(n)[0]));
}

/// Reading back the decimal text of a signed value within range gives it.
pub proof fn lemma_signed_dec(v: int, min: int, max: nat)
    requires
        min <= v <= max,
    ensures
        signed_value(dec_int(v), min, max) == Some(v),
{
    if v < 0 {
        lemma_dec((-v) as nat);
        assert(dec_int(v).drop_first() =~= dec((-v) as nat));
    } else {
        lemma_unsigned_dec(v as nat, max);
        lemma_dec(v as nat);
        assert(is_digit(dec(v as nat)[0]));
    }
}

/// `FromStr` for `i64`.
pub fn parse_i64(s: &[char]) -> (r: Option<i64>)
    ensures
        match signed_value(s@, i64::MIN as int, i64::MAX as nat) {
            Some(v) => r == Some(v as i64),
            None => r is None,
        },
{
    if s.len() > 0 && s[0] == '-' {
        assert(s@.subrange(1, s@.len() as int) =~= s@.drop_first());
        match digits_upto(s, 1, 0x8000_0000_0000_0000) {
            Some(v) => {
                if v == 0x8000_0000_0000_0000 {
                    Some(i64::MIN)
                } else {
                    Some(0 - v as i64)
                }
            },
            None => None,
        }
    } else {
        match parse_unsigned(s, 0x7fff_ffff_ffff_ffff) {
            Some(v) => Some(v as i64),
            None => None,
        }
    }
}

} // verus!
