//! evdev key and button names (from linux/input-event-codes.h, codes < 256).

use crate::chars::{chars_of, lower_all, lower_vec, spells, upper_all, upper_vec};
use crate::num::{dec, dec_string, parse_unsigned, unsigned_value};
use vstd::prelude::*;
use vstd::slice::slice_subrange;
use vstd::string::*;

verus! {

/// (name, code). Aliases share a code; the first entry for a code is canonical.
pub const KEYS: [(&'static str, u16); 242] = [
    ("KEY_ESC", 1),
    ("KEY_1", 2),
    ("KEY_2", 3),
    ("KEY_3", 4),
    ("KEY_4", 5),
    ("KEY_5", 6),
    ("KEY_6", 7),
    ("KEY_7", 8),
    ("KEY_8", 9),
    ("KEY_9", 10),
    ("KEY_0", 11),
    ("KEY_MINUS", 12),
    ("KEY_EQUAL", 13),
    ("KEY_BACKSPACE", 14),
    ("KEY_TAB", 15),
    ("KEY_Q", 16),
    ("KEY_W", 17),
    ("KEY_E", 18),
    ("KEY_R", 19),
    ("KEY_T", 20),
    ("KEY_Y", 21),
    ("KEY_U", 22),
    ("KEY_I", 23),
    ("KEY_O", 24),
    ("KEY_P", 25),
    ("KEY_LEFTBRACE", 26),
    ("KEY_RIGHTBRACE", 27),
    ("KEY_ENTER", 28),
    ("KEY_LEFTCTRL", 29),
    ("KEY_A", 30),
    ("KEY_S", 31),
    ("KEY_D", 32),
    ("KEY_F", 33),
    ("KEY_G", 34),
    ("KEY_H", 35),
    ("KEY_J", 36),
    ("KEY_K", 37),
    ("KEY_L", 38),
    ("KEY_SEMICOLON", 39),
    ("KEY_APOSTROPHE", 40),
    ("KEY_GRAVE", 41),
    ("KEY_LEFTSHIFT", 42),
    ("KEY_BACKSLASH", 43),
    ("KEY_Z", 44),
    ("KEY_X", 45),
    ("KEY_C", 46),
    ("KEY_V", 47),
    ("KEY_B", 48),
    ("KEY_N", 49),
    ("KEY_M", 50),
    ("KEY_COMMA", 51),
    ("KEY_DOT", 52),
    ("KEY_SLASH", 53),
    ("KEY_RIGHTSHIFT", 54),
    ("KEY_KPASTERISK", 55),
    ("KEY_LEFTALT", 56),
    ("KEY_SPACE", 57),
    ("KEY_CAPSLOCK", 58),
    ("KEY_F1", 59),
    ("KEY_F2", 60),
    ("KEY_F3", 61),
    ("KEY_F4", 62),
    ("KEY_F5", 63),
    ("KEY_F6", 64),
    ("KEY_F7", 65),
    ("KEY_F8", 66),
    ("KEY_F9", 67),
    ("KEY_F10", 68),
    ("KEY_NUMLOCK", 69),
    ("KEY_SCROLLLOCK", 70),
    ("KEY_KP7", 71),
    ("KEY_KP8", 72),
    ("KEY_KP9", 73),
    ("KEY_KPMINUS", 74),
    ("KEY_KP4", 75),
    ("KEY_KP5", 76),
    ("KEY_KP6", 77),
    ("KEY_KPPLUS", 78),
    ("KEY_KP1", 79),
    ("KEY_KP2", 80),
    ("KEY_KP3", 81),
    ("KEY_KP0", 82),
    ("KEY_KPDOT", 83),
    ("KEY_ZENKAKUHANKAKU", 85),
    ("KEY_102ND", 86),
    ("KEY_F11", 87),
    ("KEY_F12", 88),
    ("KEY_RO", 89),
    ("KEY_KATAKANA", 90),
    ("KEY_HIRAGANA", 91),
    ("KEY_HENKAN", 92),
    ("KEY_KATAKANAHIRAGANA", 93),
    ("KEY_MUHENKAN", 94),
    ("KEY_KPJPCOMMA", 95),
    ("KEY_KPENTER", 96),
    ("KEY_RIGHTCTRL", 97),
    ("KEY_KPSLASH", 98),
    ("KEY_SYSRQ", 99),
    ("KEY_RIGHTALT", 100),
    ("KEY_LINEFEED", 101),
    ("KEY_HOME", 102),
    ("KEY_UP", 103),
    ("KEY_PAGEUP", 104),
    ("KEY_LEFT", 105),
    ("KEY_RIGHT", 106),
    ("KEY_END", 107),
    ("KEY_DOWN", 108),
    ("KEY_PAGEDOWN", 109),
    ("KEY_INSERT", 110),
    ("KEY_DELETE", 111),
    ("KEY_MACRO", 112),
    ("KEY_MUTE", 113),
    ("KEY_VOLUMEDOWN", 114),
    ("KEY_VOLUMEUP", 115),
    ("KEY_POWER", 116),
    ("KEY_KPEQUAL", 117),
    ("KEY_KPPLUSMINUS", 118),
    ("KEY_PAUSE", 119),
    ("KEY_SCALE", 120),
    ("KEY_KPCOMMA", 121),
    ("KEY_HANGEUL", 122),
    ("KEY_HANJA", 123),
    ("KEY_YEN", 124),
    ("KEY_LEFTMETA", 125),
    ("KEY_RIGHTMETA", 126),
    ("KEY_COMPOSE", 127),
    ("KEY_STOP", 128),
    ("KEY_AGAIN", 129),
    ("KEY_PROPS", 130),
    ("KEY_UNDO", 131),
    ("KEY_FRONT", 132),
    ("KEY_COPY", 133),
    ("KEY_OPEN", 134),
    ("KEY_PASTE", 135),
    ("KEY_FIND", 136),
    ("KEY_CUT", 137),
    ("KEY_HELP", 138),
    ("KEY_MENU", 139),
    ("KEY_CALC", 140),
    ("KEY_SETUP", 141),
    ("KEY_SLEEP", 142),
    ("KEY_WAKEUP", 143),
    ("KEY_FILE", 144),
    ("KEY_SENDFILE", 145),
    ("KEY_DELETEFILE", 146),
    ("KEY_XFER", 147),
    ("KEY_PROG1", 148),
    ("KEY_PROG2", 149),
    ("KEY_WWW", 150),
    ("KEY_MSDOS", 151),
    ("KEY_COFFEE", 152),
    ("KEY_ROTATE_DISPLAY", 153),
    ("KEY_CYCLEWINDOWS", 154),
    ("KEY_MAIL", 155),
    ("KEY_BOOKMARKS", 156),
    ("KEY_COMPUTER", 157),
    ("KEY_BACK", 158),
    ("KEY_FORWARD", 159),
    ("KEY_CLOSECD", 160),
    ("KEY_EJECTCD", 161),
    ("KEY_EJECTCLOSECD", 162),
    ("KEY_NEXTSONG", 163),
    ("KEY_PLAYPAUSE", 164),
    ("KEY_PREVIOUSSONG", 165),
    ("KEY_STOPCD", 166),
    ("KEY_RECORD", 167),
    ("KEY_REWIND", 168),
    ("KEY_PHONE", 169),
    ("KEY_ISO", 170),
    ("KEY_CONFIG", 171),
    ("KEY_HOMEPAGE", 172),
    ("KEY_REFRESH", 173),
    ("KEY_EXIT", 174),
    ("KEY_MOVE", 175),
    ("KEY_EDIT", 176),
    ("KEY_SCROLLUP", 177),
    ("KEY_SCROLLDOWN", 178),
    ("KEY_KPLEFTPAREN", 179),
    ("KEY_KPRIGHTPAREN", 180),
    ("KEY_NEW", 181),
    ("KEY_REDO", 182),
    ("KEY_F13", 183),
    ("KEY_F14", 184),
    ("KEY_F15", 185),
    ("KEY_F16", 186),
    ("KEY_F17", 187),
    ("KEY_F18", 188),
    ("KEY_F19", 189),
    ("KEY_F20", 190),
    ("KEY_F21", 191),
    ("KEY_F22", 192),
    ("KEY_F23", 193),
    ("KEY_F24", 194),
    ("KEY_PLAYCD", 200),
    ("KEY_PAUSECD", 201),
    ("KEY_PROG3", 202),
    ("KEY_PROG4", 203),
    ("KEY_ALL_APPLICATIONS", 204),
    ("KEY_SUSPEND", 205),
    ("KEY_CLOSE", 206),
    ("KEY_PLAY", 207),
    ("KEY_FASTFORWARD", 208),
    ("KEY_BASSBOOST", 209),
    ("KEY_PRINT", 210),
    ("KEY_HP", 211),
    ("KEY_CAMERA", 212),
    ("KEY_SOUND", 213),
    ("KEY_QUESTION", 214),
    ("KEY_EMAIL", 215),
    ("KEY_CHAT", 216),
    ("KEY_SEARCH", 217),
    ("KEY_CONNECT", 218),
    ("KEY_FINANCE", 219),
    ("KEY_SPORT", 220),
    ("KEY_SHOP", 221),
    ("KEY_ALTERASE", 222),
    ("KEY_CANCEL", 223),
    ("KEY_BRIGHTNESSDOWN", 224),
    ("KEY_BRIGHTNESSUP", 225),
    ("KEY_MEDIA", 226),
    ("KEY_SWITCHVIDEOMODE", 227),
    ("KEY_KBDILLUMTOGGLE", 228),
    ("KEY_KBDILLUMDOWN", 229),
    ("KEY_KBDILLUMUP", 230),
    ("KEY_SEND", 231),
    ("KEY_REPLY", 232),
    ("KEY_FORWARDMAIL", 233),
    ("KEY_SAVE", 234),
    ("KEY_DOCUMENTS", 235),
    ("KEY_BATTERY", 236),
    ("KEY_BLUETOOTH", 237),
    ("KEY_WLAN", 238),
    ("KEY_UWB", 239),
    ("KEY_UNKNOWN", 240),
    ("KEY_VIDEO_NEXT", 241),
    ("KEY_VIDEO_PREV", 242),
    ("KEY_BRIGHTNESS_CYCLE", 243),
    ("KEY_BRIGHTNESS_AUTO", 244),
    ("KEY_DISPLAY_OFF", 245),
    ("KEY_WWAN", 246),
    ("KEY_RFKILL", 247),
    ("KEY_MICMUTE", 248),
];

/// Mouse button names and their evdev codes.
pub const BUTTONS: [(&'static str, u16); 8] = [
    ("left", 0x110),
    ("right", 0x111),
    ("middle", 0x112),
    ("side", 0x113),
    ("extra", 0x114),
    ("forward", 0x115),
    ("back", 0x116),
    ("task", 0x117),
];


/// A name table: (name, code) pairs.
pub type Table = Seq<(&'static str, u16)>;

/// Entry `i` is the first of `t` with code `c`.
pub open spec fn first_code(t: Table, c: u16, i: int) -> bool {
    &&& 0 <= i < t.len()
    &&& t[i].1 == c
    &&& forall|j: int| 0 <= j < i ==> #[trigger] t[j].1 != c
}

/// Position of the first entry of `t` with code `c`.
pub open spec fn code_pos(t: Table, c: u16) -> Option<int> {
    if exists|i: int| first_code(t, c, i) {
        Some(choose|i: int| first_code(t, c, i))
    } else {
        None
    }
}

/// Entry `i` is the first of `t` called `n`.
pub open spec fn first_name(t: Table, n: Seq<char>, i: int) -> bool {
    &&& 0 <= i < t.len()
    &&& t[i].0@ == n
    &&& forall|j: int| 0 <= j < i ==> #[trigger] t[j].0@ != n
}

/// Position of the first entry of `t` called `n`.
pub open spec fn name_pos(t: Table, n: Seq<char>) -> Option<int> {
    if exists|i: int| first_name(t, n, i) {
        Some(choose|i: int| first_name(t, n, i))
    } else {
        None
    }
}

/// The code of the entry of `t` called `n`, if any.
pub open spec fn code_named(t: Table, n: Seq<char>) -> Option<u16> {
    match name_pos(t, n) {
        Some(i) => Some(t[i].1),
        None => None,
    }
}

pub fn find_code(t: &[(&'static str, u16)], c: u16) -> (r: Option<usize>)
    ensures
        match code_pos(t@, c) {
            Some(i) => r == Some(i as usize),
            None => r is None,
        },
{
    let mut i: usize = 0;
    while i < t.len()
        invariant
            i <= t@.len(),
            forall|j: int| 0 <= j < i ==> #[trigger] t@[j].1 != c,
        decreases t.len() - i,
    {
        if t[i].1 == c {
            assert(first_code(t@, c, i as int));
            proof {
                let k = choose|k: int| first_code(t@, c, k);
                if k < i {
                    assert(t@[k].1 != c);
                } else if k > i {
                    assert(t@[i as int].1 != c);
                }
            }
            return Some(i);
        }
        i = i + 1;
    }
    assert forall|k: int| !first_code(t@, c, k) by {
        if 0 <= k < t@.len() {
            assert(t@[k].1 != c);
        }
    }
    None
}

fn find_name(t: &[(&'static str, u16)], n: &[char]) -> (r: Option<usize>)
    ensures
        match name_pos(t@, n@) {
            Some(i) => r == Some(i as usize),
            None => r is None,
        },
{
    let mut i: usize = 0;
    while i < t.len()
        invariant
            i <= t@.len(),
            forall|j: int| 0 <= j < i ==> #[trigger] t@[j].0@ != n@,
        decreases t.len() - i,
    {
        if spells(n, t[i].0) {
            assert(first_name(t@, n@, i as int));
            proof {
                let k = choose|k: int| first_name(t@, n@, k);
                if k < i {
                    assert(t@[k].0@ != n@);
                } else if k > i {
                    assert(t@[i as int].0@ != n@);
                }
            }
            return Some(i);
        }
        i = i + 1;
    }
    assert forall|k: int| !first_name(t@, n@, k) by {
        if 0 <= k < t@.len() {
            assert(t@[k].0@ != n@);
        }
    }
    None
}

/// Canonical `KEY_*` name for an evdev keycode.
pub fn key_name(code: u16) -> (r: Option<&'static str>)
    ensures
        match code_pos(KEYS@, code) {
            Some(i) => r == Some(KEYS@[i].0),
            None => r is None,
        },
{
    match find_code(KEYS.as_slice(), code) {
        Some(i) => Some(KEYS[i].0),
        None => None,
    }
}

/// The `KEY_*` name a key word stands for: itself when it already starts
/// with `KEY_`, else with that prefix.
pub open spec fn full_key_name(u: Seq<char>) -> Seq<char> {
    if u.len() >= 4 && u.take(4) == "KEY_"@ {
        u
    } else {
        "KEY_"@ + u
    }
}

/// The key code `key_code` reads from `s`: a number, or a key name in any
/// case with or without its `KEY_` prefix.
pub open spec fn key_code_of(s: Seq<char>) -> Option<u16> {
    match unsigned_value(s, 65535) {
        Some(n) => Some(n as u16),
        None => code_named(KEYS@, full_key_name(upper_all(s))),
    }
}

/// `key_code` on characters.
pub fn key_code_chars(s: &[char]) -> (r: Option<u16>)
    ensures
        r == key_code_of(s@),
{
    if let Some(n) = parse_unsigned(s, 65535) {
        return Some(n as u16);
    }
    let upper = upper_vec(s);
    let prefixed = upper.len() >= 4 && spells(slice_subrange(upper.as_slice(), 0, 4), "KEY_");
    let full: Vec<char> = if prefixed {
        upper
    } else {
        let mut f = chars_of("KEY_");
        let mut j: usize = 0;
        while j < upper.len()
            invariant
                j <= upper@.len(),
                f@ == "KEY_"@ + upper@.take(j as int),
            decreases upper.len() - j,
        {
            f.push(upper[j]);
            proof {
                assert(upper@.take(j as int + 1) =~= upper@.take(j as int).push(upper@[j as int]));
                assert(("KEY_"@ + upper@.take(j as int)).push(upper@[j as int]) =~= "KEY_"@
                    + upper@.take(j as int + 1));
            }
            j = j + 1;
        }
        assert(upper@.take(j as int) =~= upper@);
        f
    };
    assert(full@ == full_key_name(upper_all(s@)));
    match find_name(KEYS.as_slice(), full.as_slice()) {
        Some(i) => Some(KEYS[i].1),
        None => None,
    }
}

/// Parse a key: `KEY_A`, `a` (single character or bare name), or a number.
pub fn key_code(s: &str) -> (r: Option<u16>)
    ensures
        r == key_code_of(s@),
{
    let cs = chars_of(s);
    key_code_chars(cs.as_slice())
}

/// The name `button_name` gives a button code.
pub open spec fn button_name_of(code: u16) -> Seq<char> {
    match code_pos(BUTTONS@, code) {
        Some(i) => BUTTONS@[i].0@,
        None => dec(code as nat),
    }
}

/// Name for a mouse button code (`left`, `right`, ... or the number).
pub fn button_name(code: u16) -> (r: String)
    ensures
        r@ == button_name_of(code),
{
    match find_code(BUTTONS.as_slice(), code) {
        Some(i) => String::from_str(BUTTONS[i].0),
        None => dec_string(code as u64),
    }
}

/// A button word with its optional `btn_` prefix removed.
pub open spec fn bare_button_name(l: Seq<char>) -> Seq<char> {
    if l.len() >= 4 && l.take(4) == "btn_"@ {
        l.skip(4)
    } else {
        l
    }
}

/// The button code `button_code` reads from `s`: a number, or a button
/// name in any case with or without a `btn_` prefix.
pub open spec fn button_code_of(s: Seq<char>) -> Option<u16> {
    match unsigned_value(s, 65535) {
        Some(n) => Some(n as u16),
        None => code_named(BUTTONS@, bare_button_name(lower_all(s))),
    }
}

/// `button_code` on characters.
pub fn button_code_chars(s: &[char]) -> (r: Option<u16>)
    ensures
        r == button_code_of(s@),
{
    if let Some(n) = parse_unsigned(s, 65535) {
        return Some(n as u16);
    }
    let l = lower_vec(s);
    let bare: &[char] = if l.len() >= 4 && spells(slice_subrange(l.as_slice(), 0, 4), "btn_") {
        slice_subrange(l.as_slice(), 4, l.len())
    } else {
        l.as_slice()
    };
    assert(bare@ == bare_button_name(lower_all(s@)));
    match find_name(BUTTONS.as_slice(), bare) {
        Some(i) => Some(BUTTONS[i].1),
        None => None,
    }
}

/// Parse a mouse button: a name such as `left` or `BTN_LEFT`, or a number.
pub fn button_code(s: &str) -> (r: Option<u16>)
    ensures
        r == button_code_of(s@),
{
    let cs = chars_of(s);
    button_code_chars(cs.as_slice())
}

} // verus!
