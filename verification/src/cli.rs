//! The command line's argument handling: flags with or without values,
//! positional arguments, and the header overrides they carry.

use crate::chars::{chars_of, string_of};
use crate::format::Macro;
use crate::num::{parse_unsigned, unsigned_value};
use crate::zip::str_eq;
use vstd::prelude::*;
use vstd::slice::slice_subrange;
use vstd::string::*;

verus! {

/// Parsed command-line arguments: positional ones in order, and flags with
/// their values, in order.
pub struct Args {
    pub positional: Vec<String>,
    pub flags: Vec<(String, Option<String>)>,
}

/// The arguments as plain values.
pub ghost struct ArgsView {
    pub positional: Seq<Seq<char>>,
    pub flags: Seq<(Seq<char>, Option<Seq<char>>)>,
}

pub open spec fn strs(v: Seq<String>) -> Seq<Seq<char>> {
    v.map_values(|s: String| s@)
}

pub open spec fn opt_str(o: Option<String>) -> Option<Seq<char>> {
    match o {
        Some(s) => Some(s@),
        None => None,
    }
}

pub open spec fn flag_views(v: Seq<(String, Option<String>)>) -> Seq<(Seq<char>, Option<Seq<char>>)> {
    v.map_values(|f: (String, Option<String>)| (f.0@, opt_str(f.1)))
}

impl View for Args {
    type V = ArgsView;

    open spec fn view(&self) -> ArgsView {
        ArgsView { positional: strs(self.positional@), flags: flag_views(self.flags@) }
    }
}

/// The flag name an argument stands for: what follows `--` or `-`, when the
/// argument is longer than a lone `-`.
pub open spec fn flag_name(x: Seq<char>) -> Option<Seq<char>> {
    if x.len() > 1 && x[0] == '-' && x[1] == '-' {
        Some(x.skip(2))
    } else if x.len() > 1 && x[0] == '-' {
        Some(x.skip(1))
    } else {
        None
    }
}

/// Index of the first `=` at or after `i`, or the length.
pub open spec fn eq_from(s: Seq<char>, i: int) -> int
    decreases s.len() - i,
{
    if i >= s.len() {
        s.len() as int
    } else if s[i] == '=' {
        i
    } else {
        eq_from(s, i + 1)
    }
}

/// The arguments from index `i` on, added to `acc`: a flag written
/// `name=value` carries that value; a flag listed in `valued` takes the
/// next argument as its value (an error when there is none); other flags
/// carry none; anything else is positional.
pub open spec fn args_from(argv: Seq<Seq<char>>, valued: Seq<Seq<char>>, i: int, acc: ArgsView) -> Result<ArgsView, Seq<char>>
    decreases argv.len() - i,
{
    if i < 0 || i >= argv.len() {
        Ok(acc)
    } else {
        match flag_name(argv[i]) {
            None => args_from(
                argv,
                valued,
                i + 1,
                ArgsView { positional: acc.positional.push(argv[i]), ..acc },
            ),
            Some(name) => {
                let e = eq_from(name, 0);
                if e < name.len() {
                    args_from(
                        argv,
                        valued,
                        i + 1,
                        ArgsView { flags: acc.flags.push((name.take(e), Some(name.skip(e + 1)))), ..acc },
                    )
                } else if valued.contains(name) {
                    if i + 1 >= argv.len() {
                        Err("--"@ + name + " needs a value"@)
                    } else {
                        args_from(
                            argv,
                            valued,
                            i + 2,
                            ArgsView { flags: acc.flags.push((name, Some(argv[i + 1]))), ..acc },
                        )
                    }
                } else {
                    args_from(argv, valued, i + 1, ArgsView { flags: acc.flags.push((name, None)), ..acc })
                }
            },
        }
    }
}

pub open spec fn strs_of(v: Seq<&str>) -> Seq<Seq<char>> {
    v.map_values(|s: &str| s@)
}

/// Whether `name` is one of `names`.
fn listed(names: &[&str], name: &str) -> (r: bool)
    ensures
        r == strs_of(names@).contains(name@),
{
    let mut i: usize = 0;
    while i < names.len()
        invariant
            i <= names@.len(),
            forall|j: int| 0 <= j < i ==> names@[j]@ != name@,
        decreases names.len() - i,
    {
        if str_eq(names[i], name) {
            assert(strs_of(names@)[i as int] == name@);
            return true;
        }
        i = i + 1;
    }
    assert forall|j: int| 0 <= j < strs_of(names@).len() implies strs_of(names@)[j] != name@ by {
        assert(strs_of(names@)[j] == names@[j]@);
    }
    false
}

impl Args {
    pub fn parse(argv: &[String], with_value: &[&str]) -> (r: Result<Args, String>)
        ensures
            match args_from(strs(argv@), strs_of(with_value@), 0, ArgsView { positional: seq![], flags: seq![] }) {
                Ok(v) => r matches Ok(a) && a@ == v,
                Err(msg) => r matches Err(s) && s@ == msg,
            },
    {
        let ghost av = strs(argv@);
        let ghost vv = strs_of(with_value@);
        let mut a = Args { positional: Vec::new(), flags: Vec::new() };
        let mut i: usize = 0;
        assert(a@.positional =~= Seq::<Seq<char>>::empty());
        assert(a@.flags =~= Seq::<(Seq<char>, Option<Seq<char>>)>::empty());
        while i < argv.len()
            invariant
                av == strs(argv@),
                vv == strs_of(with_value@),
                i <= argv@.len(),
                args_from(av, vv, 0, ArgsView { positional: seq![], flags: seq![] }) == args_from(av, vv, i as int, a@),
            decreases argv.len() - i,
        {
            let x = &argv[i];
            assert(av[i as int] == x@);
            let cs = chars_of(x.as_str());
            let start: usize = if cs.len() > 1 && cs[0] == '-' && cs[1] == '-' {
                2
            } else if cs.len() > 1 && cs[0] == '-' {
                1
            } else {
                0
            };
            if start == 0 {
                let ghost old_a = a@;
                a.positional.push(x.clone());
                assert(a@.positional =~= old_a.positional.push(x@));
                assert(a@ == ArgsView { positional: old_a.positional.push(x@), ..old_a });
                i = i + 1;
            } else {
                let name = slice_subrange(cs.as_slice(), start, cs.len());
                assert(flag_name(x@) == Some(name@));
                let mut e: usize = 0;
                while e < name.len() && name[e] != '='
                    invariant
                        e <= name@.len(),
                        eq_from(name@, 0) == eq_from(name@, e as int),
                    decreases name.len() - e,
                {
                    e = e + 1;
                }
                let ghost old_a = a@;
                if e < name.len() {
                    let n = string_of(slice_subrange(name, 0, e));
                    let v = string_of(slice_subrange(name, e + 1, name.len()));
                    a.flags.push((n, Some(v)));
                    assert(a@.flags =~= old_a.flags.push((name@.take(e as int), Some(name@.skip(e as int + 1)))));
                    i = i + 1;
                } else {
                    let ns = string_of(name);
                    if listed(with_value, ns.as_str()) {
                        if i + 1 >= argv.len() {
                            let mut msg = String::from_str("--");
                            msg.append(ns.as_str());
                            msg.append(" needs a value");
                            return Err(msg);
                        }
                        assert(av[i as int + 1] == argv@[i as int + 1]@);
                        a.flags.push((ns, Some(argv[i + 1].clone())));
                        assert(a@.flags =~= old_a.flags.push((name@, Some(av[i as int + 1]))));
                        i = i + 2;
                    } else {
                        a.flags.push((ns, None));
                        assert(a@.flags =~= old_a.flags.push((name@, None)));
                        i = i + 1;
                    }
                }
            }
        }
        Ok(a)
    }

    /// A flag named `name` was given.
    pub fn has(&self, name: &str) -> (r: bool)
        ensures
            r == exists|i: int| 0 <= i < self@.flags.len() && #[trigger] self@.flags[i].0 == name@,
    {
        let mut i: usize = 0;
        while i < self.flags.len()
            invariant
                i <= self.flags@.len(),
                forall|j: int| 0 <= j < i ==> #[trigger] self@.flags[j].0 != name@,
            decreases self.flags.len() - i,
        {
            assert(self@.flags[i as int].0 == self.flags@[i as int].0@);
            if str_eq(self.flags[i].0.as_str(), name) {
                return true;
            }
            i = i + 1;
        }
        false
    }

    /// The value of the last flag named `name`, if that one has a value.
    pub fn value(&self, name: &str) -> (r: Option<&str>)
        ensures
            match last_flag(self@.flags, name@) {
                Some(i) => match self@.flags[i].1 {
                    Some(v) => r matches Some(s) && s@ == v,
                    None => r is None,
                },
                None => r is None,
            },
    {
        let mut i: usize = self.flags.len();
        while i > 0
            invariant
                i <= self.flags@.len(),
                forall|j: int| i <= j < self@.flags.len() ==> #[trigger] self@.flags[j].0 != name@,
            decreases i,
        {
            assert(self@.flags[i - 1].0 == self.flags@[i - 1].0@);
            if str_eq(self.flags[i - 1].0.as_str(), name) {
                proof {
                    let k = choose|k: int| 0 <= k < self@.flags.len() && self@.flags[k].0 == name@ && forall|j: int| k < j < self@.flags.len() ==> #[trigger] self@.flags[j].0 != name@;
                    if k < i - 1 {
                        assert(self@.flags[i - 1].0 != name@);
                    } else if k > i - 1 {
                        assert(self@.flags[k].0 != name@);
                    }
                }
                return match &self.flags[i - 1].1 {
                    Some(v) => Some(v.as_str()),
                    None => None,
                };
            }
            i = i - 1;
        }
        None
    }

    /// The value of the last flag named `name` read as a number.
    pub fn u32(&self, name: &str) -> (r: Result<Option<u32>, String>)
        ensures
            number_result(r, flag_number(self@, name@)),
    {
        match self.value(name) {
            None => Ok(None),
            Some(v) => {
                let cs = chars_of(v);
                match parse_unsigned(cs.as_slice(), u32::MAX as u64) {
                    Some(n) => Ok(Some(n as u32)),
                    None => {
                        let mut msg = String::from_str("--");
                        msg.append(name);
                        msg.append(": expected a number, got `");
                        msg.append(v);
                        msg.append("`");
                        Err(msg)
                    },
                }
            },
        }
    }
}

/// The number the last flag named `name` gives, or the message for a value
/// that is not one.
pub open spec fn flag_number(a: ArgsView, name: Seq<char>) -> Result<Option<u32>, Seq<char>> {
    match last_flag(a.flags, name) {
        Some(i) => match a.flags[i].1 {
            Some(v) => match unsigned_value(v, u32::MAX as nat) {
                Some(n) => Ok(Some(n as u32)),
                None => Err("--"@ + name + ": expected a number, got `"@ + v + "`"@),
            },
            None => Ok(None),
        },
        None => Ok(None),
    }
}

/// `r` is `expected`, with its message as a string.
pub open spec fn number_result(r: Result<Option<u32>, String>, expected: Result<Option<u32>, Seq<char>>) -> bool {
    match expected {
        Ok(v) => r == Ok::<Option<u32>, String>(v),
        Err(msg) => match r {
            Ok(_) => false,
            Err(s) => s@ == msg,
        },
    }
}

/// Position of the last flag named `name`.
pub open spec fn last_flag(flags: Seq<(Seq<char>, Option<Seq<char>>)>, name: Seq<char>) -> Option<int> {
    if exists|k: int| 0 <= k < flags.len() && flags[k].0 == name {
        Some(
            choose|k: int|
                0 <= k < flags.len() && flags[k].0 == name && forall|j: int| k < j < flags.len() ==> #[trigger] flags[j].0 != name,
        )
    } else {
        None
    }
}

/// Apply `--repeat` and `--speed` to the header.
pub fn apply_overrides(m: &mut Macro, args: &Args) -> (r: Result<(), String>)
    ensures
        final(m).events@ == old(m).events@,
        match (flag_number(args@, "repeat"@), flag_number(args@, "speed"@)) {
            (Err(msg), _) => r matches Err(s) && s@ == msg,
            (Ok(_), Err(msg)) => r matches Err(s) && s@ == msg,
            (Ok(rep), Ok(sp)) => r is Ok && final(m).header.screen_w == old(m).header.screen_w
                && final(m).header.screen_h == old(m).header.screen_h && final(m).header.repeat == (
            match rep {
                Some(n) => n,
                None => old(m).header.repeat,
            }) && final(m).header.speed_percent == (match sp {
                Some(n) => n,
                None => old(m).header.speed_percent,
            }),
        },
{
    match args.u32("repeat") {
        Ok(Some(r)) => {
            m.header.repeat = r;
        },
        Ok(None) => {},
        Err(e) => return Err(e),
    }
    match args.u32("speed") {
        Ok(Some(s)) => {
            m.header.speed_percent = s;
        },
        Ok(None) => {},
        Err(e) => return Err(e),
    }
    Ok(())
}

/// Index of the first `x` at or after `i`, or the length of `s`.
pub open spec fn x_at_or_after(s: Seq<char>, i: int) -> int
    decreases s.len() - i,
{
    if i >= s.len() {
        s.len() as int
    } else if s[i] == 'x' {
        i
    } else {
        x_at_or_after(s, i + 1)
    }
}

/// The width and height a `--screen WxH` value gives (split at its first
/// `x`), or the message for a value that gives none.
pub open spec fn screen_size(s: Seq<char>) -> Result<(u32, u32), Seq<char>> {
    let x = x_at_or_after(s, 0);
    if x >= s.len() {
        Err("--screen expects WxH"@)
    } else {
        match unsigned_value(s.take(x), u32::MAX as nat) {
            None => Err("bad width"@),
            Some(w) => match unsigned_value(s.skip(x + 1), u32::MAX as nat) {
                None => Err("bad height"@),
                Some(h) => Ok((w as u32, h as u32)),
            },
        }
    }
}

/// Read the value of `--screen`: a width, `x` and a height.
pub fn parse_screen(s: &str) -> (r: Result<(u32, u32), String>)
    ensures
        match screen_size(s@) {
            Ok(p) => r == Ok::<(u32, u32), String>(p),
            Err(msg) => r matches Err(e) && e@ == msg,
        },
{
    let cs = chars_of(s);
    let a = cs.as_slice();
    let mut x: usize = 0;
    while x < a.len() && a[x] != 'x'
        invariant
            x <= a@.len(),
            a@ == s@,
            x_at_or_after(a@, 0) == x_at_or_after(a@, x as int),
        decreases a.len() - x,
    {
        x = x + 1;
    }
    if x == a.len() {
        return Err(String::from_str("--screen expects WxH"));
    }
    let w = match parse_unsigned(slice_subrange(a, 0, x), 0xffff_ffff) {
        Some(v) => v,
        None => return Err(String::from_str("bad width")),
    };
    let h = match parse_unsigned(slice_subrange(a, x + 1, a.len()), 0xffff_ffff) {
        Some(v) => v,
        None => return Err(String::from_str("bad height")),
    };
    Ok((w as u32, h as u32))
}

} // verus!
