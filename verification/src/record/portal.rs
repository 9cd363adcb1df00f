//! The decisions of the XDG desktop portal session that feeds the Wayland
//! cursor stream: the names of requests and the D-Bus match rules for
//! their answers, which answer is ours, the ScreenCast options, and what
//! the portal's answers mean.

use crate::chars::{chars_of, string_of};
use crate::num::{append_dec, dec};
use crate::zip::str_eq;
use vstd::prelude::*;
use vstd::string::*;

verus! {

/// One ScreenCast stream: its PipeWire node and, when the portal told,
/// its size and position.
#[derive(Clone, Copy, Debug, PartialEq, Eq)]
pub struct Stream {
    pub node_id: u32,
    pub size: Option<(i32, i32)>,
    pub position: Option<(i32, i32)>,
}

/// A decoded variant value of a portal answer.
#[derive(Clone, Debug)]
pub enum Value {
    Str(String),
    U32(u32),
    I32Pair(i32, i32),
    Streams(Vec<Stream>),
    Other,
}

/// Index of the first character of `u` at or after `i` that is not `:`.
pub open spec fn colons_end(u: Seq<char>, i: int) -> int
    decreases u.len() - i,
{
    if i >= u.len() || u[i] != ':' {
        i
    } else {
        colons_end(u, i + 1)
    }
}

/// `.` written as `_`.
pub open spec fn undotted(c: char) -> char {
    if c == '.' {
        '_'
    } else {
        c
    }
}

/// The sender part of request paths: the connection's unique bus name
/// without its leading colons, dots turned into underscores.
pub open spec fn sender_of(unique: Seq<char>) -> Seq<char> {
    let i = if 0 <= colons_end(unique, 0) <= unique.len() {
        colons_end(unique, 0)
    } else {
        0
    };
    undot_all(unique.skip(i))
}

/// Every `.` of `s` written as `_`.
pub open spec fn undot_all(s: Seq<char>) -> Seq<char> {
    s.map_values(|c: char| undotted(c))
}

proof fn lemma_colons_end(u: Seq<char>, i: int)
    requires
        0 <= i <= u.len(),
    ensures
        i <= colons_end(u, i) <= u.len(),
        forall|j: int| i <= j < colons_end(u, i) ==> u[j] == ':',
        colons_end(u, i) < u.len() ==> u[colons_end(u, i)] != ':',
    decreases u.len() - i,
{
    if i < u.len() && u[i] == ':' {
        lemma_colons_end(u, i + 1);
    }
}

/// The sender part of request paths for the bus name `unique`.
pub fn portal_sender(unique: &str) -> (s: String)
    ensures
        s@ == sender_of(unique@),
{
    let u = chars_of(unique);
    proof {
        lemma_colons_end(u@, 0);
    }
    let mut i: usize = 0;
    while i < u.len() && u[i] == ':'
        invariant
            i <= u@.len(),
            colons_end(u@, 0) == colons_end(u@, i as int),
        decreases u.len() - i,
    {
        i = i + 1;
    }
    let ghost start = i as int;
    let mut out: Vec<char> = Vec::new();
    while i < u.len()
        invariant
            start <= i <= u@.len(),
            out@.len() == i - start,
            forall|k: int| 0 <= k < out@.len() ==> #[trigger] out@[k] == undotted(u@[start + k]),
        decreases u.len() - i,
    {
        let c = u[i];
        out.push(if c == '.' {
            '_'
        } else {
            c
        });
        i = i + 1;
    }
    assert(out@ =~= undot_all(u@.skip(start)));
    string_of(out.as_slice())
}

/// The handle token of the `counter`-th request of process `pid`.
pub open spec fn token_text(pid: u32, counter: u32) -> Seq<char> {
    "atbswp"@ + dec(pid as nat) + "_"@ + dec(counter as nat)
}

pub fn request_token(pid: u32, counter: u32) -> (s: String)
    ensures
        s@ == token_text(pid, counter),
{
    let mut s = String::from_str("atbswp");
    append_dec(&mut s, pid as u64);
    s.append("_");
    append_dec(&mut s, counter as u64);
    s
}

/// The object path of the request whose answer comes as a Response signal.
pub open spec fn request_path_text(sender: Seq<char>, token: Seq<char>) -> Seq<char> {
    "/org/freedesktop/portal/desktop/request/"@ + sender + "/"@ + token
}

pub fn request_path(sender: &str, token: &str) -> (s: String)
    ensures
        s@ == request_path_text(sender@, token@),
{
    let mut s = String::from_str("/org/freedesktop/portal/desktop/request/");
    s.append(sender);
    s.append("/");
    s.append(token);
    s
}

/// The D-Bus match rule for the Response signal on `path`.
pub open spec fn response_rule_text(path: Seq<char>) -> Seq<char> {
    "type='signal',interface='org.freedesktop.portal.Request',member='Response',path='"@ + path
        + "'"@
}

pub fn response_rule(path: &str) -> (s: String)
    ensures
        s@ == response_rule_text(path@),
{
    let mut s = String::from_str(
        "type='signal',interface='org.freedesktop.portal.Request',member='Response',path='",
    );
    s.append(path);
    s.append("'");
    s
}

/// The other request path to listen on: the one an older portal answered
/// with, when it differs from ours; empty otherwise.
pub fn alt_path(answered: &str, requested: &str) -> (s: String)
    ensures
        s@ == (if answered@ != requested@ {
            answered@
        } else {
            Seq::<char>::empty()
        }),
{
    if !str_eq(answered, requested) {
        String::from_str(answered)
    } else {
        String::new()
    }
}

/// A signal is the answer to our request: a Response on our request path,
/// or on the other path when there is one.
pub fn is_our_response(is_response: bool, path: &str, requested: &str, alt: &str) -> (r: bool)
    ensures
        r == (is_response && (path@ == requested@ || (alt@.len() > 0 && path@ == alt@))),
{
    proof {
        reveal_strlit("");
        if alt@.len() == 0 {
            assert(alt@ =~= ""@);
        }
    }
    is_response && (str_eq(path, requested) || (!str_eq(alt, "") && str_eq(path, alt)))
}

/// Take in one property of a stream: its `size` or its `position`.
pub fn apply_stream_prop(s: &mut Stream, key: &str, v: &Value)
    ensures
        *final(s) == (match v {
            Value::I32Pair(a, b) => if key@ == "size"@ {
                Stream { size: Some((*a, *b)), ..*old(s) }
            } else if key@ == "position"@ {
                Stream { position: Some((*a, *b)), ..*old(s) }
            } else {
                *old(s)
            },
            _ => *old(s),
        }),
{
    if let Value::I32Pair(a, b) = v {
        if str_eq(key, "size") {
            s.size = Some((*a, *b));
        } else if str_eq(key, "position") {
            s.position = Some((*a, *b));
        }
    }
}

// ---- the ScreenCast session ----------------------------------------------------

/// The index of the first result called `key`.
pub open spec fn key_pos(rs: Seq<(String, Value)>, key: Seq<char>) -> Option<int> {
    if exists|i: int| 0 <= i < rs.len() && rs[i].0@ == key && forall|j: int|
        0 <= j < i ==> #[trigger] rs[j].0@ != key {
        Some(
            choose|i: int|
                0 <= i < rs.len() && rs[i].0@ == key && forall|j: int|
                    0 <= j < i ==> #[trigger] rs[j].0@ != key,
        )
    } else {
        None
    }
}

fn find_key(rs: &[(String, Value)], key: &str) -> (r: Option<usize>)
    ensures
        match key_pos(rs@, key@) {
            Some(i) => r == Some(i as usize),
            None => r is None,
        },
{
    let mut i: usize = 0;
    while i < rs.len()
        invariant
            i <= rs@.len(),
            forall|j: int| 0 <= j < i ==> #[trigger] rs@[j].0@ != key@,
        decreases rs.len() - i,
    {
        if str_eq(rs[i].0.as_str(), key) {
            proof {
                let k = choose|k: int|
                    0 <= k < rs@.len() && rs@[k].0@ == key@ && forall|j: int|
                        0 <= j < k ==> #[trigger] rs@[j].0@ != key@;
                if k < i {
                    assert(rs@[k].0@ != key@);
                } else if k > i {
                    assert(rs@[i as int].0@ != key@);
                }
            }
            return Some(i);
        }
        i = i + 1;
    }
    None
}

/// The message of a failed request.
pub open spec fn failed_text(what: Seq<char>, code: u32) -> Seq<char> {
    "ScreenCast "@ + what + " failed (response "@ + dec(code as nat) + ")"@
}

fn failed(what: &str, code: u32) -> (s: String)
    ensures
        s@ == failed_text(what@, code),
{
    let mut s = String::from_str("ScreenCast ");
    s.append(what);
    s.append(" failed (response ");
    append_dec(&mut s, code as u64);
    s.append(")");
    s
}

/// The session handle a CreateSession answer gives: its `session_handle`
/// string, when the request succeeded (code 0).
pub open spec fn session_result(code: u32, rs: Seq<(String, Value)>) -> Result<Seq<char>, Seq<char>> {
    match key_pos(rs, "session_handle"@) {
        Some(i) => match rs[i].1 {
            Value::Str(s) => if code == 0 {
                Ok(s@)
            } else {
                Err(failed_text("CreateSession"@, code))
            },
            _ => Err(failed_text("CreateSession"@, code)),
        },
        None => Err(failed_text("CreateSession"@, code)),
    }
}

pub fn session_of(code: u32, rs: &[(String, Value)]) -> (r: Result<String, String>)
    ensures
        match session_result(code, rs@) {
            Ok(s) => r matches Ok(x) && x@ == s,
            Err(m) => r matches Err(x) && x@ == m,
        },
{
    match find_key(rs, "session_handle") {
        Some(i) => match &rs[i].1 {
            Value::Str(s) => if code == 0 {
                Ok(s.clone())
            } else {
                Err(failed("CreateSession", code))
            },
            _ => Err(failed("CreateSession", code)),
        },
        None => Err(failed("CreateSession", code)),
    }
}

/// The SelectSources answer: fine when its code is 0.
pub open spec fn select_result(code: u32) -> Result<(), Seq<char>> {
    if code == 0 {
        Ok(())
    } else {
        Err(
            failed_text("SelectSources"@, code)
                + "; does the compositor support cursor metadata?"@,
        )
    }
}

pub fn select_checked(code: u32) -> (r: Result<(), String>)
    ensures
        match select_result(code) {
            Ok(_) => r is Ok,
            Err(m) => r matches Err(x) && x@ == m,
        },
{
    if code == 0 {
        Ok(())
    } else {
        let mut s = failed("SelectSources", code);
        s.append("; does the compositor support cursor metadata?");
        Err(s)
    }
}

/// The Start answer: fine when its code is 0; code 1 is a cancelled
/// screen capture.
pub open spec fn start_result(code: u32) -> Result<(), Seq<char>> {
    if code == 0 {
        Ok(())
    } else if code == 1 {
        Err("screen capture was cancelled"@)
    } else {
        Err(failed_text("Start"@, code))
    }
}

pub fn start_checked(code: u32) -> (r: Result<(), String>)
    ensures
        match start_result(code) {
            Ok(_) => r is Ok,
            Err(m) => r matches Err(x) && x@ == m,
        },
{
    if code == 0 {
        Ok(())
    } else if code == 1 {
        Err(String::from_str("screen capture was cancelled"))
    } else {
        Err(failed("Start", code))
    }
}

/// The restore token a Start answer carries, if any.
pub fn restore_token(rs: &[(String, Value)]) -> (r: Option<String>)
    ensures
        match key_pos(rs@, "restore_token"@) {
            Some(i) => match rs@[i].1 {
                Value::Str(t) => r matches Some(x) && x@ == t@,
                _ => r is None,
            },
            None => r is None,
        },
{
    match find_key(rs, "restore_token") {
        Some(i) => match &rs[i].1 {
            Value::Str(t) => Some(t.clone()),
            _ => None,
        },
        None => None,
    }
}

/// The stream a Start answer offers: the first of its `streams`.
pub fn first_stream(rs: &[(String, Value)]) -> (r: Result<Stream, String>)
    ensures
        match key_pos(rs@, "streams"@) {
            Some(i) => match rs@[i].1 {
                Value::Streams(v) => if v@.len() > 0 {
                    r == Ok::<Stream, String>(v@[0])
                } else {
                    r matches Err(x) && x@ == "ScreenCast Start returned no streams"@
                },
                _ => r matches Err(x) && x@ == "ScreenCast Start returned no streams"@,
            },
            None => r matches Err(x) && x@ == "ScreenCast Start returned no streams"@,
        },
{
    match find_key(rs, "streams") {
        Some(i) => match &rs[i].1 {
            Value::Streams(v) => if v.len() > 0 {
                Ok(v[0])
            } else {
                Err(String::from_str("ScreenCast Start returned no streams"))
            },
            _ => Err(String::from_str("ScreenCast Start returned no streams")),
        },
        None => Err(String::from_str("ScreenCast Start returned no streams")),
    }
}

} // verus!
