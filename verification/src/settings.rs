//! Persistent GUI settings, stored as simple `key = value` lines.

use crate::format::{Header, Macro};
use crate::chars::{chars_of, lower_vec, same_chars, spells, string_of, white_space};
use crate::num::{append_dec, dec, is_digit, lemma_dec, lemma_unsigned_dec, parse_unsigned, unsigned_value};
use crate::roundtrip::{
    joined, lemma_dec_word, lemma_lines_joined, lemma_trim_solid, line_ok, word_ok,
};
use crate::text::{
    find_line_end, lemma_line_end, line_at, line_end, lines_from, lines_of, solid, trim, trim_chars,
};
use vstd::prelude::*;
use vstd::slice::slice_subrange;
use vstd::string::*;

verus! {

#[derive(Clone, Debug, PartialEq)]
pub struct Settings {
    pub fast_play: bool,
    pub infinite: bool,
    pub repeat: u32,
    /// evdev code of the key that stops a recording (F2..F12)
    pub recording_hotkey: u16,
    pub always_on_top: bool,
    /// seconds to wait before a recording starts
    pub recording_timer: u32,
    /// motion coalescing interval in ms
    pub mouse_speed_ms: u32,
    /// UI language code ("" = follow the system locale)
    pub language: String,
}

/// The settings as plain values.
pub ghost struct SettingsView {
    pub fast_play: bool,
    pub infinite: bool,
    pub repeat: u32,
    pub recording_hotkey: u16,
    pub always_on_top: bool,
    pub recording_timer: u32,
    pub mouse_speed_ms: u32,
    pub language: Seq<char>,
}

impl View for Settings {
    type V = SettingsView;

    open spec fn view(&self) -> SettingsView {
        SettingsView {
            fast_play: self.fast_play,
            infinite: self.infinite,
            repeat: self.repeat,
            recording_hotkey: self.recording_hotkey,
            always_on_top: self.always_on_top,
            recording_timer: self.recording_timer,
            mouse_speed_ms: self.mouse_speed_ms,
            language: self.language@,
        }
    }
}

/// The settings a new installation starts with.
pub open spec fn default_settings() -> SettingsView {
    SettingsView {
        fast_play: false,
        infinite: false,
        repeat: 1,
        recording_hotkey: 88,
        always_on_top: true,
        recording_timer: 0,
        mouse_speed_ms: 21,
        language: seq![],
    }
}

impl Default for Settings {
    fn default() -> (s: Self)
        ensures
            s@ == default_settings(),
    {
        Settings {
            fast_play: false,
            infinite: false,
            repeat: 1,
            recording_hotkey: 88,  // KEY_F12
            always_on_top: true,
            recording_timer: 0,
            mouse_speed_ms: 21,
            language: String::new(),
        }
    }
}

/// Bundled UI languages, in the order of the settings combo box (index 0 =
/// system default).
pub const LANGUAGES: [&'static str; 9] = ["", "de", "en", "es", "fr", "it", "ja", "pl", "tr"];

/// Position of the first entry of `t` whose text is `s`.
pub open spec fn text_pos(t: Seq<&'static str>, s: Seq<char>) -> Option<int> {
    if exists|i: int| 0 <= i < t.len() && t[i]@ == s && forall|j: int| 0 <= j < i ==> #[trigger] t[j]@ != s {
        Some(choose|i: int| 0 <= i < t.len() && t[i]@ == s && forall|j: int| 0 <= j < i ==> #[trigger] t[j]@ != s)
    } else {
        None
    }
}

fn find_text(t: &[&'static str], s: &[char]) -> (r: Option<usize>)
    ensures
        match text_pos(t@, s@) {
            Some(i) => r == Some(i as usize),
            None => r is None,
        },
{
    let mut i: usize = 0;
    while i < t.len()
        invariant
            i <= t@.len(),
            forall|j: int| 0 <= j < i ==> #[trigger] t@[j]@ != s@,
        decreases t.len() - i,
    {
        if spells(s, t[i]) {
            proof {
                let k = choose|k: int| 0 <= k < t@.len() && t@[k]@ == s@ && forall|j: int| 0 <= j < k ==> #[trigger] t@[j]@ != s@;
                if k < i {
                    assert(t@[k]@ != s@);
                } else if k > i {
                    assert(t@[i as int]@ != s@);
                }
            }
            return Some(i);
        }
        i = i + 1;
    }
    None
}

/// The combo-box index of a language code; unknown codes select the system
/// default.
pub fn language_index(code: &str) -> (r: i32)
    ensures
        r == match text_pos(LANGUAGES@, code@) {
            Some(i) => i,
            None => 0,
        },
{
    let cs = chars_of(code);
    match find_text(LANGUAGES.as_slice(), cs.as_slice()) {
        Some(i) => i as i32,
        None => 0,
    }
}

/// The bundled language, other than the system default, called `code`.
pub open spec fn bundled(code: Seq<char>) -> Option<int> {
    if code.len() > 0 {
        text_pos(LANGUAGES@, code)
    } else {
        None
    }
}

/// The language part of a locale such as `de_DE.UTF-8`: what precedes the
/// first `_`, `.` or `@`, in ASCII lower case.
pub open spec fn locale_language(locale: Seq<char>) -> Seq<char> {
    crate::chars::lower_all(locale.take(cut_from(locale, 0)))
}

/// Index of the first `_`, `.` or `@` at or after `i`, or the length.
pub open spec fn cut_from(s: Seq<char>, i: int) -> int
    decreases s.len() - i,
{
    if i >= s.len() {
        s.len() as int
    } else if s[i] == '_' || s[i] == '.' || s[i] == '@' {
        i
    } else {
        cut_from(s, i + 1)
    }
}

/// The language to use: the setting when it names a bundled language, else
/// the language of the system locale if bundled, else English.  `locale` is
/// the first of `LC_ALL`, `LC_MESSAGES` and `LANG` that is set to something
/// other than empty, `C` or `POSIX` (empty when none is).
pub open spec fn effective(setting: Seq<char>, locale: Seq<char>) -> Seq<char> {
    match bundled(setting) {
        Some(i) => LANGUAGES@[i]@,
        None => match bundled(locale_language(locale)) {
            Some(i) => LANGUAGES@[i]@,
            None => "en"@,
        },
    }
}

/// The language to use; see `effective`.
pub fn effective_language(setting: &str, locale: &str) -> (r: &'static str)
    ensures
        r@ == effective(setting@, locale@),
{
    let s = chars_of(setting);
    if s.len() > 0 {
        if let Some(i) = find_text(LANGUAGES.as_slice(), s.as_slice()) {
            return LANGUAGES[i];
        }
    }
    let l = chars_of(locale);
    let mut j: usize = 0;
    while j < l.len() && l[j] != '_' && l[j] != '.' && l[j] != '@'
        invariant
            j <= l@.len(),
            cut_from(l@, 0) == cut_from(l@, j as int),
        decreases l.len() - j,
    {
        j = j + 1;
    }
    let code = lower_vec(slice_subrange(l.as_slice(), 0, j));
    if code.len() > 0 {
        if let Some(i) = find_text(LANGUAGES.as_slice(), code.as_slice()) {
            return LANGUAGES[i];
        }
    }
    "en"
}

/// Whether a locale value counts as set: not empty, `C` or `POSIX`.
pub open spec fn locale_set(v: Seq<char>) -> bool {
    v.len() > 0 && v != "C"@ && v != "POSIX"@
}

/// The first of the locale values that counts as set, or empty.
pub open spec fn first_locale(vals: Seq<Option<Seq<char>>>) -> Seq<char>
    decreases vals.len(),
{
    if vals.len() == 0 {
        seq![]
    } else {
        match vals[0] {
            Some(v) => if locale_set(v) {
                v
            } else {
                first_locale(vals.drop_first())
            },
            None => first_locale(vals.drop_first()),
        }
    }
}

/// The views of optional strings.
pub open spec fn opt_views(vals: Seq<Option<String>>) -> Seq<Option<Seq<char>>> {
    vals.map_values(|v: Option<String>| match v {
        Some(s) => Some(s@),
        None => None,
    })
}

/// The locale to go by, from the values of `LC_ALL`, `LC_MESSAGES` and
/// `LANG` (in that order; `None` where unset).
pub fn pick_locale(vals: &[Option<String>]) -> (r: String)
    ensures
        r@ == first_locale(opt_views(vals@)),
{
    let mut i: usize = 0;
    assert(opt_views(vals@).skip(0) =~= opt_views(vals@));
    while i < vals.len()
        invariant
            i <= vals@.len(),
            first_locale(opt_views(vals@)) == first_locale(opt_views(vals@).skip(i as int)),
        decreases vals.len() - i,
    {
        let ghost rest = opt_views(vals@).skip(i as int);
        assert(rest[0] == opt_views(vals@)[i as int]);
        assert(rest.drop_first() =~= opt_views(vals@).skip(i as int + 1));
        match &vals[i] {
            Some(v) => {
                let cs = chars_of(v.as_str());
                if cs.len() > 0 && !spells(cs.as_slice(), "C") && !spells(cs.as_slice(), "POSIX") {
                    return v.clone();
                }
            },
            None => {},
        }
        i = i + 1;
    }
    assert(opt_views(vals@).skip(i as int).len() == 0);
    String::new()
}

/// `true` or `false`.
pub open spec fn bool_text(b: bool) -> Seq<char> {
    if b {
        "true"@
    } else {
        "false"@
    }
}

fn append_bool(s: &mut String, b: bool)
    ensures
        final(s)@ == old(s)@ + bool_text(b),
{
    if b {
        s.append("true");
    } else {
        s.append("false");
    }
}

/// evdev codes of F1..F12 (index 0 = F1).
pub const FKEYS: [u16; 12] = [59, 60, 61, 62, 63, 64, 65, 66, 67, 68, 87, 88];

/// The index of a function key's code; unknown codes select F12.
pub fn fkey_index(code: u16) -> (r: i32)
    ensures
        (exists|i: int| 0 <= i < 12 && FKEYS@[i] == code) ==> 0 <= r < 12 && FKEYS@[r as int] == code
            && forall|j: int| 0 <= j < r ==> FKEYS@[j] != code,
        !(exists|i: int| 0 <= i < 12 && FKEYS@[i] == code) ==> r == 11,
{
    let mut i: usize = 0;
    while i < 12
        invariant
            i <= 12,
            forall|j: int| 0 <= j < i ==> FKEYS@[j] != code,
        decreases 12 - i,
    {
        if FKEYS[i] == code {
            return i as i32;
        }
        i = i + 1;
    }
    11
}

/// Index of the first `=` at or after `i`, or the length.
pub open spec fn eq_from(s: Seq<char>, i: int) -> int
    decreases s.len() - i,
{
    if i >= s.len() {
        s.len() as int
    } else if s[i] == '=' {
        i
    } else {
        eq_from(s, i + 1)
    }
}

/// What one `key = value` line sets; other lines, and unknown keys, change
/// nothing.  Unreadable numbers fall back to the defaults; `repeat` and
/// `mouse_speed_ms` are at least 1.
pub open spec fn setting_step(s: SettingsView, line: Seq<char>) -> SettingsView {
    let e = eq_from(line, 0);
    if e >= line.len() {
        s
    } else {
        let k = trim(line.take(e));
        let v = trim(line.skip(e + 1));
        if k == "fast_play"@ {
            SettingsView { fast_play: v == "true"@, ..s }
        } else if k == "infinite"@ {
            SettingsView { infinite: v == "true"@, ..s }
        } else if k == "repeat"@ {
            SettingsView {
                repeat: match unsigned_value(v, u32::MAX as nat) {
                    Some(n) => if n >= 1 {
                        n as u32
                    } else {
                        1
                    },
                    None => 1,
                },
                ..s
            }
        } else if k == "recording_hotkey"@ {
            SettingsView {
                recording_hotkey: match unsigned_value(v, u16::MAX as nat) {
                    Some(n) => n as u16,
                    None => 88,
                },
                ..s
            }
        } else if k == "always_on_top"@ {
            SettingsView { always_on_top: v == "true"@, ..s }
        } else if k == "recording_timer"@ {
            SettingsView {
                recording_timer: match unsigned_value(v, u32::MAX as nat) {
                    Some(n) => n as u32,
                    None => 0,
                },
                ..s
            }
        } else if k == "mouse_speed_ms"@ {
            SettingsView {
                mouse_speed_ms: match unsigned_value(v, u32::MAX as nat) {
                    Some(n) => if n >= 1 {
                        n as u32
                    } else {
                        1
                    },
                    None => 21,
                },
                ..s
            }
        } else if k == "language"@ {
            SettingsView { language: v, ..s }
        } else {
            s
        }
    }
}

/// The settings after the lines `k..` of a configuration.
pub open spec fn settings_after(lines: Seq<Seq<char>>, k: int, s: SettingsView) -> SettingsView
    decreases lines.len() - k,
{
    if k < 0 || k >= lines.len() {
        s
    } else {
        settings_after(lines, k + 1, setting_step(s, lines[k]))
    }
}

/// The settings a configuration text holds.
pub open spec fn config_of(text: Seq<char>) -> SettingsView {
    settings_after(lines_of(text), 0, default_settings())
}

/// A number setting, or its fallback.
fn number_or(v: &[char], max: u64, fallback: u64) -> (r: u64)
    ensures
        r == match unsigned_value(v@, max as nat) {
            Some(n) => n,
            None => fallback as nat,
        },
{
    match parse_unsigned(v, max) {
        Some(n) => n,
        None => fallback,
    }
}

impl Settings {
    /// Apply one configuration line.
    fn apply_line(&mut self, line: &[char])
        ensures
            final(self)@ == setting_step(old(self)@, line@),
    {
        let mut e: usize = 0;
        while e < line.len() && line[e] != '='
            invariant
                e <= line@.len(),
                eq_from(line@, 0) == eq_from(line@, e as int),
            decreases line.len() - e,
        {
            e = e + 1;
        }
        if e == line.len() {
            return;
        }
        let k = trim_chars(slice_subrange(line, 0, e));
        let v = trim_chars(slice_subrange(line, e + 1, line.len()));
        assert(k@ == trim(line@.take(e as int)));
        assert(v@ == trim(line@.skip(e as int + 1)));
        if spells(k, "fast_play") {
            self.fast_play = spells(v, "true");
        } else if spells(k, "infinite") {
            self.infinite = spells(v, "true");
        } else if spells(k, "repeat") {
            let n = number_or(v, u32::MAX as u64, 1);
            self.repeat = if n >= 1 { n as u32 } else { 1 };
        } else if spells(k, "recording_hotkey") {
            self.recording_hotkey = number_or(v, u16::MAX as u64, 88) as u16;
        } else if spells(k, "always_on_top") {
            self.always_on_top = spells(v, "true");
        } else if spells(k, "recording_timer") {
            self.recording_timer = number_or(v, u32::MAX as u64, 0) as u32;
        } else if spells(k, "mouse_speed_ms") {
            let n = number_or(v, u32::MAX as u64, 21);
            self.mouse_speed_ms = if n >= 1 { n as u32 } else { 1 };
        } else if spells(k, "language") {
            self.language = string_of(v);
        }
    }

    /// The settings a configuration text holds, starting from the defaults.
    pub fn parse_config(text: &str) -> (s: Settings)
        ensures
            s@ == config_of(text@),
    {
        let cs = chars_of(text);
        let t = cs.as_slice();
        let ghost lines = lines_of(t@);
        let mut s = Settings::default();
        let mut i: usize = 0;
        let mut k: usize = 0;
        while i < t.len()
            invariant
                t@ == text@,
                lines == lines_of(t@),
                i <= t@.len(),
                k <= i,
                k <= lines.len(),
                lines_from(t@, i as int) == lines.skip(k as int),
                settings_after(lines, 0, default_settings()) == settings_after(lines, k as int, s@),
            decreases t.len() - i,
        {
            let e = find_line_end(t, i);
            proof {
                lemma_line_end(t@, i as int);
            }
            let end = if e < t.len() && e > i && t[e - 1] == '\r' {
                e - 1
            } else {
                e
            };
            let line = slice_subrange(t, i, end);
            assert(line@ =~= line_at(t@, i as int, e as int));
            proof {
                assert(lines.skip(k as int) == seq![line@] + lines_from(t@, e + 1));
                assert(lines[k as int] == lines.skip(k as int)[0]);
                assert(lines.skip(k as int + 1) =~= lines.skip(k as int).drop_first());
                assert(lines.skip(k as int).drop_first() =~= lines_from(t@, e + 1));
            }
            s.apply_line(line);
            k = k + 1;
            i = if e < t.len() {
                e + 1
            } else {
                t.len()
            };
        }
        proof {
            assert(lines.skip(k as int).len() == 0);
        }
        s
    }

    /// The configuration text `save` writes: every setting, one
    /// `key = value` line each.
    pub fn config_text(&self) -> (t: String)
        ensures
            t@ == joined(config_lines(self@)),
    {
        let mut t = String::new();
        push_bool_line(&mut t, "fast_play", self.fast_play);
        push_bool_line(&mut t, "infinite", self.infinite);
        push_dec_line(&mut t, "repeat", self.repeat as u64);
        push_dec_line(&mut t, "recording_hotkey", self.recording_hotkey as u64);
        push_bool_line(&mut t, "always_on_top", self.always_on_top);
        push_dec_line(&mut t, "recording_timer", self.recording_timer as u64);
        push_dec_line(&mut t, "mouse_speed_ms", self.mouse_speed_ms as u64);
        push_text_line(&mut t, "language", self.language.as_str());
        proof {
            let ls = config_lines(self@);
            lemma_joined_eight(ls);
            assert(t@ =~= ls[0] + seq!['\n'] + ls[1] + seq!['\n'] + ls[2] + seq!['\n'] + ls[3]
                + seq!['\n'] + ls[4] + seq!['\n'] + ls[5] + seq!['\n'] + ls[6] + seq!['\n'] + ls[7]
                + seq!['\n']);
        }
        t
    }

    pub fn speed_percent(&self) -> (r: u32)
        ensures
            r == if self.fast_play {
                200u32
            } else {
                100u32
            },
    {
        if self.fast_play {
            200
        } else {
            100
        }
    }
}

/// Eight lines, joined.
proof fn lemma_joined_eight(ls: Seq<Seq<char>>)
    requires
        ls.len() == 8,
    ensures
        joined(ls) == ls[0] + seq!['\n'] + ls[1] + seq!['\n'] + ls[2] + seq!['\n'] + ls[3] + seq!['\n']
            + ls[4] + seq!['\n'] + ls[5] + seq!['\n'] + ls[6] + seq!['\n'] + ls[7] + seq!['\n'],
{
    assert(joined(ls.skip(8)) =~= Seq::<char>::empty()) by {
        assert(ls.skip(8) =~= Seq::<Seq<char>>::empty());
    }
    assert forall|j: int| 0 <= j < 8 implies #[trigger] joined(ls.skip(j)) == ls[j] + seq!['\n']
        + joined(ls.skip(j + 1)) by {
        assert(ls.skip(j).drop_first() =~= ls.skip(j + 1));
        assert(ls.skip(j)[0] == ls[j]);
    }
    assert(ls.skip(0) =~= ls);
    assert(joined(ls) =~= ls[0] + seq!['\n'] + ls[1] + seq!['\n'] + ls[2] + seq!['\n'] + ls[3]
        + seq!['\n'] + ls[4] + seq!['\n'] + ls[5] + seq!['\n'] + ls[6] + seq!['\n'] + ls[7]
        + seq!['\n']);
}

fn push_text_line(t: &mut String, key: &str, v: &str)
    ensures
        final(t)@ == old(t)@ + setting_line(key@, v@) + seq!['\n'],
{
    t.append(key);
    t.append(" = ");
    t.append(v);
    t.append("\n");
    proof {
        reveal_strlit("\n");
    }
    assert(final(t)@ =~= old(t)@ + setting_line(key@, v@) + seq!['\n']);
}

fn push_bool_line(t: &mut String, key: &str, b: bool)
    ensures
        final(t)@ == old(t)@ + setting_line(key@, bool_text(b)) + seq!['\n'],
{
    t.append(key);
    t.append(" = ");
    append_bool(t, b);
    t.append("\n");
    proof {
        reveal_strlit("\n");
    }
    assert(final(t)@ =~= old(t)@ + setting_line(key@, bool_text(b)) + seq!['\n']);
}

fn push_dec_line(t: &mut String, key: &str, n: u64)
    ensures
        final(t)@ == old(t)@ + setting_line(key@, dec(n as nat)) + seq!['\n'],
{
    t.append(key);
    t.append(" = ");
    append_dec(t, n);
    t.append("\n");
    proof {
        reveal_strlit("\n");
    }
    assert(final(t)@ =~= old(t)@ + setting_line(key@, dec(n as nat)) + seq!['\n']);
}

// ---- the settings window -------------------------------------------------------------

/// The settings the window's controls hold: counts below their least
/// (1 for the repeat count and motion interval, 0 for the timer) are raised
/// to it, and the hot key and language indexes are clamped into their lists.
pub open spec fn settings_of_controls(
    fast_play: bool,
    infinite: bool,
    repeat: i32,
    hotkey_index: i32,
    stay_on_top: bool,
    recording_timer: i32,
    mouse_speed: i32,
    language_index: i32,
) -> SettingsView {
    SettingsView {
        fast_play,
        infinite,
        repeat: if repeat < 1 {
            1
        } else {
            repeat as u32
        },
        recording_hotkey: FKEYS@[if hotkey_index < 0 {
            0
        } else if hotkey_index > 11 {
            11
        } else {
            hotkey_index as int
        }],
        always_on_top: stay_on_top,
        recording_timer: if recording_timer < 0 {
            0
        } else {
            recording_timer as u32
        },
        mouse_speed_ms: if mouse_speed < 1 {
            1
        } else {
            mouse_speed as u32
        },
        language: LANGUAGES@[if language_index < 0 {
            0
        } else if language_index > 8 {
            8
        } else {
            language_index as int
        }]@,
    }
}

/// The settings the window's controls hold.
pub fn settings_from_ui(
    fast_play: bool,
    infinite: bool,
    repeat: i32,
    hotkey_index: i32,
    stay_on_top: bool,
    recording_timer: i32,
    mouse_speed: i32,
    language_index: i32,
) -> (s: Settings)
    ensures
        s@ == settings_of_controls(
            fast_play,
            infinite,
            repeat,
            hotkey_index,
            stay_on_top,
            recording_timer,
            mouse_speed,
            language_index,
        ),
{
    let hk: usize = if hotkey_index < 0 {
        0
    } else if hotkey_index > 11 {
        11
    } else {
        hotkey_index as usize
    };
    let li: usize = if language_index < 0 {
        0
    } else if language_index > 8 {
        8
    } else {
        language_index as usize
    };
    Settings {
        fast_play,
        infinite,
        repeat: if repeat < 1 {
            1
        } else {
            repeat as u32
        },
        recording_hotkey: FKEYS[hk],
        always_on_top: stay_on_top,
        recording_timer: if recording_timer < 0 {
            0
        } else {
            recording_timer as u32
        },
        mouse_speed_ms: if mouse_speed < 1 {
            1
        } else {
            mouse_speed as u32
        },
        language: String::from_str(LANGUAGES[li]),
    }
}

/// Playback settings travel in the macro header: the repeat count (0 for
/// forever) and the speed.
pub fn apply_settings(s: &Settings, m: &mut Macro)
    ensures
        final(m).events@ == old(m).events@,
        final(m).header == (Header {
            repeat: if s.infinite {
                0
            } else {
                s.repeat
            },
            speed_percent: if s.fast_play {
                200
            } else {
                100
            },
            ..old(m).header
        }),
{
    m.header.repeat = if s.infinite {
        0
    } else {
        s.repeat
    };
    m.header.speed_percent = s.speed_percent();
}

// ---- what `save` writes, `load` reads back -------------------------------------------

/// One `key = value` line.
pub open spec fn setting_line(key: Seq<char>, val: Seq<char>) -> Seq<char> {
    key + " = "@ + val
}

/// The lines `config_text` writes.
pub open spec fn config_lines(s: SettingsView) -> Seq<Seq<char>> {
    seq![
        setting_line("fast_play"@, bool_text(s.fast_play)),
        setting_line("infinite"@, bool_text(s.infinite)),
        setting_line("repeat"@, dec(s.repeat as nat)),
        setting_line("recording_hotkey"@, dec(s.recording_hotkey as nat)),
        setting_line("always_on_top"@, bool_text(s.always_on_top)),
        setting_line("recording_timer"@, dec(s.recording_timer as nat)),
        setting_line("mouse_speed_ms"@, dec(s.mouse_speed_ms as nat)),
        setting_line("language"@, s.language),
    ]
}

/// A value that reads back as itself from a `key = value` line: no line
/// break in it, and no white space at either end (a value of only white
/// space cannot be told from an empty one).
pub open spec fn text_ok(v: Seq<char>) -> bool {
    &&& forall|i: int| 0 <= i < v.len() ==> #[trigger] v[i] != '\n'
    &&& (v.len() == 0 || (!white_space(v[0]) && !white_space(v.last())))
}

proof fn lemma_value_text(v: Seq<char>)
    requires
        value_ok(v),
    ensures
        text_ok(v),
{
    assert forall|i: int| 0 <= i < v.len() implies #[trigger] v[i] != '\n' by {
        assert(!white_space(v[i]));
    }
    assert(!white_space(v[0]));
    assert(!white_space(v[v.len() - 1]));
}

/// A setting's key: lower-case letters and underscores.
pub open spec fn key_ok(k: Seq<char>) -> bool {
    &&& k.len() > 0
    &&& forall|i: int| 0 <= i < k.len() ==> ('a' <= #[trigger] k[i] <= 'z' || k[i] == '_')
}

/// A setting's value: a script-like word with no `=`.
pub open spec fn value_ok(v: Seq<char>) -> bool {
    &&& word_ok(v)
    &&& forall|i: int| 0 <= i < v.len() ==> #[trigger] v[i] != '='
}

proof fn lemma_eq_from_key(l: Seq<char>, k: Seq<char>, i: int)
    requires
        0 <= i <= k.len(),
        key_ok(k),
        k.len() + 1 < l.len(),
        l.take(k.len() as int) == k,
        l[k.len() as int] == ' ',
        l[k.len() + 1int] == '=',
    ensures
        eq_from(l, i) == k.len() + 1,
    decreases k.len() + 1 - i,
{
    if i < k.len() {
        assert(l[i] == l.take(k.len() as int)[i]);
        assert('a' <= k[i] <= 'z' || k[i] == '_');
        lemma_eq_from_key(l, k, i + 1);
    } else {
        assert(eq_from(l, i + 1) == k.len() + 1);
    }
}

/// A `key = value` line splits at its `=` into that key and value.
proof fn lemma_setting_line(k: Seq<char>, v: Seq<char>)
    requires
        key_ok(k),
        text_ok(v),
    ensures
        line_ok(setting_line(k, v)),
        eq_from(setting_line(k, v), 0) < setting_line(k, v).len(),
        trim(setting_line(k, v).take(eq_from(setting_line(k, v), 0))) == k,
        trim(setting_line(k, v).skip(eq_from(setting_line(k, v), 0) + 1)) == v,
{
    reveal_strlit(" = ");
    let l = setting_line(k, v);
    let n = k.len() as int;
    assert(l.take(n) =~= k);
    assert(l[n] == ' ');
    assert(l[n + 1] == '=');
    lemma_eq_from_key(l, k, 0);
    assert forall|i: int| 0 <= i < l.len() implies #[trigger] l[i] != '\n' by {
        if i < n {
            assert(l[i] == k[i]);
            assert('a' <= k[i] <= 'z' || k[i] == '_');
        } else if i >= n + 3 {
            assert(l[i] == v[i - n - 3]);
        }
    }
    if v.len() > 0 {
        assert(l.last() == v[v.len() - 1]);
    } else {
        assert(l.last() == ' ');
    }
    let left = l.take(n + 1);
    assert(left == k + seq![' ']);
    assert(solid(k)) by {
        assert forall|i: int| 0 <= i < k.len() implies !white_space(#[trigger] k[i]) by {
            assert('a' <= k[i] <= 'z' || k[i] == '_');
        }
    }
    lemma_trim_solid(k);
    assert(!white_space(k[0]));
    assert(crate::text::lead(left, 0) == 0);
    assert(!white_space(left[n - 1]));
    assert(crate::text::tail(left, n) == n);
    assert(crate::text::tail(left, n + 1) == n);
    assert(left.subrange(0, n) =~= k);
    let right = l.skip(n + 2);
    assert(right =~= seq![' '] + v);
    if v.len() > 0 {
        assert(!white_space(v[0]));
        assert(crate::text::lead(right, 1) == 1);
        assert(crate::text::lead(right, 0) == 1);
        assert(!white_space(right[right.len() - 1]));
        assert(crate::text::tail(right, right.len() as int) == right.len());
        assert(right.subrange(1, right.len() as int) =~= v);
    } else {
        assert(crate::text::lead(right, 1) == 1);
        assert(crate::text::lead(right, 0) == 1);
        assert(v =~= Seq::<char>::empty());
    }
}

proof fn lemma_bool_value(b: bool)
    ensures
        value_ok(bool_text(b)),
        text_ok(bool_text(b)),
        (bool_text(b) == "true"@) == b,
{
    reveal_strlit("true");
    reveal_strlit("false");
    let t = bool_text(b);
    assert forall|i: int| 0 <= i < t.len() implies !white_space(#[trigger] t[i]) && t[i] != '#'
        && t[i] != '=' by {
        assert('a' <= t[i] <= 'z');
    }
    if !b {
        assert("false"@ != "true"@) by {
            assert("false"@.len() != "true"@.len());
        }
    }
    lemma_value_text(t);
}

proof fn lemma_dec_value(n: nat)
    ensures
        value_ok(dec(n)),
        text_ok(dec(n)),
{
    lemma_dec_word(n);
    lemma_dec(n);
    assert forall|i: int| 0 <= i < dec(n).len() implies #[trigger] dec(n)[i] != '=' by {
        assert(is_digit(dec(n)[i]));
    }
    lemma_value_text(dec(n));
}

/// What `save` writes, `load` reads back: the whole settings.  A repeat
/// count or motion interval of zero is read back as 1, and a language with
/// a line break or white space at an end does not read back as itself, so
/// those are left out.
pub proof fn law_save_then_load(s: SettingsView)
    requires
        s.repeat >= 1,
        s.mouse_speed_ms >= 1,
        text_ok(s.language),
    ensures
        config_of(joined(config_lines(s))) == s,
{
    reveal_strlit("fast_play");
    reveal_strlit("infinite");
    reveal_strlit("repeat");
    reveal_strlit("recording_hotkey");
    reveal_strlit("always_on_top");
    reveal_strlit("recording_timer");
    reveal_strlit("mouse_speed_ms");
    reveal_strlit("language");
    let ls = config_lines(s);
    lemma_bool_value(s.fast_play);
    lemma_bool_value(s.infinite);
    lemma_bool_value(s.always_on_top);
    lemma_dec_value(s.repeat as nat);
    lemma_dec_value(s.recording_hotkey as nat);
    lemma_dec_value(s.recording_timer as nat);
    lemma_dec_value(s.mouse_speed_ms as nat);
    assert(key_ok("fast_play"@));
    assert(key_ok("infinite"@));
    assert(key_ok("repeat"@));
    assert(key_ok("recording_hotkey"@));
    assert(key_ok("always_on_top"@));
    assert(key_ok("recording_timer"@));
    assert(key_ok("mouse_speed_ms"@));
    lemma_setting_line("fast_play"@, bool_text(s.fast_play));
    lemma_setting_line("infinite"@, bool_text(s.infinite));
    lemma_setting_line("repeat"@, dec(s.repeat as nat));
    lemma_setting_line("recording_hotkey"@, dec(s.recording_hotkey as nat));
    lemma_setting_line("always_on_top"@, bool_text(s.always_on_top));
    lemma_setting_line("recording_timer"@, dec(s.recording_timer as nat));
    lemma_setting_line("mouse_speed_ms"@, dec(s.mouse_speed_ms as nat));
    assert(key_ok("language"@));
    lemma_setting_line("language"@, s.language);
    assert forall|i: int| 0 <= i < ls.len() implies line_ok(#[trigger] ls[i]) by {
        if i == 0 {
        } else if i == 1 {
        } else if i == 2 {
        } else if i == 3 {
        } else if i == 4 {
        } else if i == 5 {
        } else if i == 6 {
        } else {
        }
    }
    lemma_lines_joined(ls);
    lemma_unsigned_dec(s.repeat as nat, u32::MAX as nat);
    lemma_unsigned_dec(s.recording_hotkey as nat, u16::MAX as nat);
    lemma_unsigned_dec(s.recording_timer as nat, u32::MAX as nat);
    lemma_unsigned_dec(s.mouse_speed_ms as nat, u32::MAX as nat);
    let s0 = default_settings();
    let s1 = setting_step(s0, ls[0]);
    assert(s1 == SettingsView { fast_play: s.fast_play, ..s0 });
    let s2 = setting_step(s1, ls[1]);
    assert(s2 == SettingsView { infinite: s.infinite, ..s1 });
    let s3 = setting_step(s2, ls[2]);
    assert(s3 == SettingsView { repeat: s.repeat, ..s2 });
    let s4 = setting_step(s3, ls[3]);
    assert(s4 == SettingsView { recording_hotkey: s.recording_hotkey, ..s3 });
    let s5 = setting_step(s4, ls[4]);
    assert(s5 == SettingsView { always_on_top: s.always_on_top, ..s4 });
    let s6 = setting_step(s5, ls[5]);
    assert(s6 == SettingsView { recording_timer: s.recording_timer, ..s5 });
    let s7 = setting_step(s6, ls[6]);
    assert(s7 == SettingsView { mouse_speed_ms: s.mouse_speed_ms, ..s6 });
    let s8 = setting_step(s7, ls[7]);
    assert(s8 == s);
    assert(settings_after(ls, 8, s8) == s8);
    assert(settings_after(ls, 7, s7) == s8);
    assert(settings_after(ls, 6, s6) == s8);
    assert(settings_after(ls, 5, s5) == s8);
    assert(settings_after(ls, 4, s4) == s8);
    assert(settings_after(ls, 3, s3) == s8);
    assert(settings_after(ls, 2, s2) == s8);
    assert(settings_after(ls, 1, s1) == s8);
    assert(settings_after(ls, 0, s0) == s8);
}

} // verus!
