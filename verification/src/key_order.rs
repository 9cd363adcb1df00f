//! The key table's names are all different, each is a `KEY_` word of
//! upper-case letters, digits and underscores, and so each reads back as
//! its own code.  Distinctness is shown through the names' lexicographic
//! order: `BY_NAME` lists the table's indexes sorted by name, and
//! `POSITION` is its inverse.

use crate::chars::{lower, lower_all, upper, upper_all, white_space};
use crate::keys::{code_named, code_pos, first_code, first_name, full_key_name, key_code_of, name_pos, KEYS};
use crate::num::{dec, is_digit, lemma_unsigned_dec, unsigned_digits, unsigned_value};
use vstd::prelude::*;

verus! {

/// The table's indexes in the order of their names.
pub const BY_NAME: [u8; 242] = [
    10, 1, 84, 2, 3, 4, 5, 6, 7, 8, 9, 29, 127, 197, 215, 39, 47, 156, 42, 13, 202, 229, 230, 154,
    217, 218, 237, 236, 45, 138, 205, 216, 57, 209, 199, 158, 150, 50, 125, 155, 169, 211, 131,
    135, 152, 31, 109, 144, 238, 228, 51, 106, 17, 174, 159, 160, 208, 105, 27, 12, 0, 172, 32, 58,
    67, 85, 86, 181, 182, 183, 184, 185, 186, 187, 59, 188, 189, 190, 191, 192, 60, 61, 62, 63, 64,
    65, 66, 201, 142, 212, 134, 157, 226, 130, 33, 40, 34, 120, 121, 136, 90, 89, 100, 170, 204,
    22, 108, 168, 35, 36, 88, 91, 222, 221, 223, 81, 78, 79, 80, 74, 75, 76, 70, 71, 72, 54, 119,
    82, 94, 115, 93, 177, 73, 77, 116, 178, 96, 37, 103, 55, 25, 28, 123, 41, 99, 49, 110, 153,
    219, 137, 241, 11, 173, 149, 92, 111, 48, 179, 161, 68, 23, 132, 24, 107, 102, 133, 117, 194,
    167, 200, 193, 162, 114, 163, 203, 146, 147, 195, 196, 128, 15, 207, 18, 165, 180, 171, 225,
    166, 240, 104, 98, 26, 95, 124, 53, 87, 151, 30, 227, 118, 176, 69, 175, 210, 38, 224, 143,
    139, 214, 52, 140, 206, 56, 213, 126, 164, 198, 220, 97, 19, 14, 21, 129, 233, 101, 232, 46,
    234, 235, 112, 113, 16, 141, 231, 239, 148, 44, 145, 20, 122, 43, 83,
];

/// Where each table index stands in `BY_NAME`.
pub const POSITION: [u8; 242] = [
    60, 1, 3, 4, 5, 6, 7, 8, 9, 10, 0, 151, 59, 19, 220, 180, 231, 52, 182, 219, 238, 221, 105,
    160, 162, 140, 191, 58, 141, 11, 197, 45, 62, 94, 96, 108, 109, 137, 204, 15, 95, 143, 18, 240,
    236, 28, 226, 16, 156, 145, 37, 50, 209, 194, 125, 139, 212, 32, 63, 74, 80, 81, 82, 83, 84,
    85, 86, 64, 159, 201, 122, 123, 124, 132, 119, 120, 121, 133, 116, 117, 118, 115, 127, 241, 2,
    65, 66, 195, 110, 101, 100, 111, 154, 130, 128, 192, 136, 218, 190, 144, 102, 224, 164, 138,
    189, 57, 51, 163, 106, 46, 146, 155, 229, 230, 172, 129, 134, 166, 199, 126, 97, 98, 239, 142,
    193, 38, 214, 12, 179, 222, 93, 42, 161, 165, 90, 43, 99, 149, 29, 207, 210, 232, 88, 206, 47,
    237, 175, 176, 235, 153, 36, 196, 44, 147, 23, 39, 17, 91, 35, 54, 55, 158, 171, 173, 215, 183,
    187, 168, 107, 40, 103, 185, 61, 152, 53, 202, 200, 131, 135, 157, 184, 67, 68, 69, 70, 71, 72,
    73, 75, 76, 77, 78, 79, 170, 167, 177, 178, 13, 216, 34, 169, 87, 20, 174, 104, 30, 211, 181,
    56, 33, 203, 41, 89, 213, 208, 14, 31, 24, 25, 148, 217, 113, 112, 114, 205, 186, 92, 198, 49,
    21, 22, 233, 225, 223, 227, 228, 27, 26, 48, 234, 188, 150,
];

/// A character of a key name: an upper-case letter, a digit or `_`.
pub open spec fn key_char(c: char) -> bool {
    ('A' <= c <= 'Z') || ('0' <= c <= '9') || c == '_'
}

/// Every character of `s` from `i` on is a key-name character.
pub open spec fn key_chars_from(s: Seq<char>, i: int) -> bool
    decreases s.len() - i,
{
    if i >= s.len() {
        true
    } else {
        key_char(s[i]) && key_chars_from(s, i + 1)
    }
}

/// `s` is a key name: `KEY_` and key-name characters.
pub open spec fn key_name_ok(s: Seq<char>) -> bool {
    &&& s.len() >= 4
    &&& s[0] == 'K' && s[1] == 'E' && s[2] == 'Y' && s[3] == '_'
    &&& key_chars_from(s, 0)
}

/// `a` comes before `b` in lexicographic order, comparing from index `i`.
pub open spec fn before_from(a: Seq<char>, b: Seq<char>, i: int) -> bool
    decreases a.len() - i,
{
    if i >= a.len() {
        i < b.len()
    } else if i >= b.len() {
        false
    } else if a[i] < b[i] {
        true
    } else if a[i] == b[i] {
        before_from(a, b, i + 1)
    } else {
        false
    }
}

/// The name at position `k` of the name order.
#[verifier::opaque]
pub open spec fn ranked(k: int) -> Seq<char> {
    KEYS@[BY_NAME@[k] as int].0@
}

/// What one stretch of the name order shows: names of the right shape, in
/// strictly increasing order.
pub open spec fn stretch_ok(lo: int, hi: int) -> bool {
    &&& forall|k: int| lo <= k < hi ==> key_name_ok(#[trigger] ranked(k))
    &&& forall|k: int| lo <= k < hi && k + 1 < 242 ==> #[trigger] adjacent(k)
}

/// The names at positions `k` and `k + 1` are in order.
pub open spec fn adjacent(k: int) -> bool {
    before_from(ranked(k), ranked(k + 1), 0)
}

proof fn lemma_before_irreflexive(a: Seq<char>, i: int)
    requires
        0 <= i,
    ensures
        !before_from(a, a, i),
    decreases a.len() - i,
{
    if i < a.len() {
        lemma_before_irreflexive(a, i + 1);
    }
}

proof fn lemma_before_transitive(a: Seq<char>, b: Seq<char>, c: Seq<char>, i: int)
    requires
        0 <= i,
        before_from(a, b, i),
        before_from(b, c, i),
    ensures
        before_from(a, c, i),
    decreases a.len() - i,
{
    if i < a.len() && i < b.len() && i < c.len() && a[i] == b[i] && b[i] == c[i] {
        lemma_before_transitive(a, b, c, i + 1);
    }
}

proof fn lemma_key_chars(s: Seq<char>, i: int)
    requires
        0 <= i,
        key_chars_from(s, i),
    ensures
        forall|j: int| i <= j < s.len() ==> key_char(#[trigger] s[j]),
    decreases s.len() - i,
{
    if i < s.len() {
        lemma_key_chars(s, i + 1);
    }
}

#[verifier::spinoff_prover]
#[verifier::rlimit(60)]
proof fn lemma_stretch_0()
    ensures
        stretch_ok(0, 20),
{
    reveal_strlit("KEY_0");
    reveal_strlit("KEY_1");
    reveal_strlit("KEY_102ND");
    reveal_strlit("KEY_2");
    reveal_strlit("KEY_3");
    reveal_strlit("KEY_4");
    reveal_strlit("KEY_5");
    reveal_strlit("KEY_6");
    reveal_strlit("KEY_7");
    reveal_strlit("KEY_8");
    reveal_strlit("KEY_9");
    reveal_strlit("KEY_A");
    reveal_strlit("KEY_AGAIN");
    reveal_strlit("KEY_ALL_APPLICATIONS");
    reveal_strlit("KEY_ALTERASE");
    reveal_strlit("KEY_APOSTROPHE");
    reveal_strlit("KEY_B");
    reveal_strlit("KEY_BACK");
    reveal_strlit("KEY_BACKSLASH");
    reveal_strlit("KEY_BACKSPACE");
    reveal_strlit("KEY_BASSBOOST");
    reveal(ranked);
    reveal_with_fuel(key_chars_from, 24);
    reveal_with_fuel(before_from, 24);
    assert forall|k: int| 0 <= k < 20 implies key_name_ok(#[trigger] ranked(k)) && (k + 1 < 242
        ==> adjacent(k)) by {
        if k == 0 {
        } else if k == 1 {
        } else if k == 2 {
        } else if k == 3 {
        } else if k == 4 {
        } else if k == 5 {
        } else if k == 6 {
        } else if k == 7 {
        } else if k == 8 {
        } else if k == 9 {
        } else if k == 10 {
        } else if k == 11 {
        } else if k == 12 {
        } else if k == 13 {
        } else if k == 14 {
        } else if k == 15 {
        } else if k == 16 {
        } else if k == 17 {
        } else if k == 18 {
        } else if k == 19 {
        }
    }
}

#[verifier::spinoff_prover]
#[verifier::rlimit(60)]
proof fn lemma_stretch_20()
    ensures
        stretch_ok(20, 40),
{
    reveal_strlit("KEY_BASSBOOST");
    reveal_strlit("KEY_BATTERY");
    reveal_strlit("KEY_BLUETOOTH");
    reveal_strlit("KEY_BOOKMARKS");
    reveal_strlit("KEY_BRIGHTNESSDOWN");
    reveal_strlit("KEY_BRIGHTNESSUP");
    reveal_strlit("KEY_BRIGHTNESS_AUTO");
    reveal_strlit("KEY_BRIGHTNESS_CYCLE");
    reveal_strlit("KEY_C");
    reveal_strlit("KEY_CALC");
    reveal_strlit("KEY_CAMERA");
    reveal_strlit("KEY_CANCEL");
    reveal_strlit("KEY_CAPSLOCK");
    reveal_strlit("KEY_CHAT");
    reveal_strlit("KEY_CLOSE");
    reveal_strlit("KEY_CLOSECD");
    reveal_strlit("KEY_COFFEE");
    reveal_strlit("KEY_COMMA");
    reveal_strlit("KEY_COMPOSE");
    reveal_strlit("KEY_COMPUTER");
    reveal_strlit("KEY_CONFIG");
    reveal(ranked);
    reveal_with_fuel(key_chars_from, 24);
    reveal_with_fuel(before_from, 24);
    assert forall|k: int| 20 <= k < 40 implies key_name_ok(#[trigger] ranked(k)) && (k + 1 < 242
        ==> adjacent(k)) by {
        if k == 20 {
        } else if k == 21 {
        } else if k == 22 {
        } else if k == 23 {
        } else if k == 24 {
        } else if k == 25 {
        } else if k == 26 {
        } else if k == 27 {
        } else if k == 28 {
        } else if k == 29 {
        } else if k == 30 {
        } else if k == 31 {
        } else if k == 32 {
        } else if k == 33 {
        } else if k == 34 {
        } else if k == 35 {
        } else if k == 36 {
        } else if k == 37 {
        } else if k == 38 {
        } else if k == 39 {
        }
    }
}

#[verifier::spinoff_prover]
#[verifier::rlimit(60)]
proof fn lemma_stretch_40()
    ensures
        stretch_ok(40, 60),
{
    reveal_strlit("KEY_CONFIG");
    reveal_strlit("KEY_CONNECT");
    reveal_strlit("KEY_COPY");
    reveal_strlit("KEY_CUT");
    reveal_strlit("KEY_CYCLEWINDOWS");
    reveal_strlit("KEY_D");
    reveal_strlit("KEY_DELETE");
    reveal_strlit("KEY_DELETEFILE");
    reveal_strlit("KEY_DISPLAY_OFF");
    reveal_strlit("KEY_DOCUMENTS");
    reveal_strlit("KEY_DOT");
    reveal_strlit("KEY_DOWN");
    reveal_strlit("KEY_E");
    reveal_strlit("KEY_EDIT");
    reveal_strlit("KEY_EJECTCD");
    reveal_strlit("KEY_EJECTCLOSECD");
    reveal_strlit("KEY_EMAIL");
    reveal_strlit("KEY_END");
    reveal_strlit("KEY_ENTER");
    reveal_strlit("KEY_EQUAL");
    reveal_strlit("KEY_ESC");
    reveal(ranked);
    reveal_with_fuel(key_chars_from, 24);
    reveal_with_fuel(before_from, 24);
    assert forall|k: int| 40 <= k < 60 implies key_name_ok(#[trigger] ranked(k)) && (k + 1 < 242
        ==> adjacent(k)) by {
        if k == 40 {
        } else if k == 41 {
        } else if k == 42 {
        } else if k == 43 {
        } else if k == 44 {
        } else if k == 45 {
        } else if k == 46 {
        } else if k == 47 {
        } else if k == 48 {
        } else if k == 49 {
        } else if k == 50 {
        } else if k == 51 {
        } else if k == 52 {
        } else if k == 53 {
        } else if k == 54 {
        } else if k == 55 {
        } else if k == 56 {
        } else if k == 57 {
        } else if k == 58 {
        } else if k == 59 {
        }
    }
}

#[verifier::spinoff_prover]
#[verifier::rlimit(60)]
proof fn lemma_stretch_60()
    ensures
        stretch_ok(60, 80),
{
    reveal_strlit("KEY_ESC");
    reveal_strlit("KEY_EXIT");
    reveal_strlit("KEY_F");
    reveal_strlit("KEY_F1");
    reveal_strlit("KEY_F10");
    reveal_strlit("KEY_F11");
    reveal_strlit("KEY_F12");
    reveal_strlit("KEY_F13");
    reveal_strlit("KEY_F14");
    reveal_strlit("KEY_F15");
    reveal_strlit("KEY_F16");
    reveal_strlit("KEY_F17");
    reveal_strlit("KEY_F18");
    reveal_strlit("KEY_F19");
    reveal_strlit("KEY_F2");
    reveal_strlit("KEY_F20");
    reveal_strlit("KEY_F21");
    reveal_strlit("KEY_F22");
    reveal_strlit("KEY_F23");
    reveal_strlit("KEY_F24");
    reveal_strlit("KEY_F3");
    reveal(ranked);
    reveal_with_fuel(key_chars_from, 24);
    reveal_with_fuel(before_from, 24);
    assert forall|k: int| 60 <= k < 80 implies key_name_ok(#[trigger] ranked(k)) && (k + 1 < 242
        ==> adjacent(k)) by {
        if k == 60 {
        } else if k == 61 {
        } else if k == 62 {
        } else if k == 63 {
        } else if k == 64 {
        } else if k == 65 {
        } else if k == 66 {
        } else if k == 67 {
        } else if k == 68 {
        } else if k == 69 {
        } else if k == 70 {
        } else if k == 71 {
        } else if k == 72 {
        } else if k == 73 {
        } else if k == 74 {
        } else if k == 75 {
        } else if k == 76 {
        } else if k == 77 {
        } else if k == 78 {
        } else if k == 79 {
        }
    }
}

#[verifier::spinoff_prover]
#[verifier::rlimit(60)]
proof fn lemma_stretch_80()
    ensures
        stretch_ok(80, 100),
{
    reveal_strlit("KEY_F3");
    reveal_strlit("KEY_F4");
    reveal_strlit("KEY_F5");
    reveal_strlit("KEY_F6");
    reveal_strlit("KEY_F7");
    reveal_strlit("KEY_F8");
    reveal_strlit("KEY_F9");
    reveal_strlit("KEY_FASTFORWARD");
    reveal_strlit("KEY_FILE");
    reveal_strlit("KEY_FINANCE");
    reveal_strlit("KEY_FIND");
    reveal_strlit("KEY_FORWARD");
    reveal_strlit("KEY_FORWARDMAIL");
    reveal_strlit("KEY_FRONT");
    reveal_strlit("KEY_G");
    reveal_strlit("KEY_GRAVE");
    reveal_strlit("KEY_H");
    reveal_strlit("KEY_HANGEUL");
    reveal_strlit("KEY_HANJA");
    reveal_strlit("KEY_HELP");
    reveal_strlit("KEY_HENKAN");
    reveal(ranked);
    reveal_with_fuel(key_chars_from, 24);
    reveal_with_fuel(before_from, 24);
    assert forall|k: int| 80 <= k < 100 implies key_name_ok(#[trigger] ranked(k)) && (k + 1 < 242
        ==> adjacent(k)) by {
        if k == 80 {
        } else if k == 81 {
        } else if k == 82 {
        } else if k == 83 {
        } else if k == 84 {
        } else if k == 85 {
        } else if k == 86 {
        } else if k == 87 {
        } else if k == 88 {
        } else if k == 89 {
        } else if k == 90 {
        } else if k == 91 {
        } else if k == 92 {
        } else if k == 93 {
        } else if k == 94 {
        } else if k == 95 {
        } else if k == 96 {
        } else if k == 97 {
        } else if k == 98 {
        } else if k == 99 {
        }
    }
}

#[verifier::spinoff_prover]
#[verifier::rlimit(60)]
proof fn lemma_stretch_100()
    ensures
        stretch_ok(100, 120),
{
    reveal_strlit("KEY_HENKAN");
    reveal_strlit("KEY_HIRAGANA");
    reveal_strlit("KEY_HOME");
    reveal_strlit("KEY_HOMEPAGE");
    reveal_strlit("KEY_HP");
    reveal_strlit("KEY_I");
    reveal_strlit("KEY_INSERT");
    reveal_strlit("KEY_ISO");
    reveal_strlit("KEY_J");
    reveal_strlit("KEY_K");
    reveal_strlit("KEY_KATAKANA");
    reveal_strlit("KEY_KATAKANAHIRAGANA");
    reveal_strlit("KEY_KBDILLUMDOWN");
    reveal_strlit("KEY_KBDILLUMTOGGLE");
    reveal_strlit("KEY_KBDILLUMUP");
    reveal_strlit("KEY_KP0");
    reveal_strlit("KEY_KP1");
    reveal_strlit("KEY_KP2");
    reveal_strlit("KEY_KP3");
    reveal_strlit("KEY_KP4");
    reveal_strlit("KEY_KP5");
    reveal(ranked);
    reveal_with_fuel(key_chars_from, 24);
    reveal_with_fuel(before_from, 24);
    assert forall|k: int| 100 <= k < 120 implies key_name_ok(#[trigger] ranked(k)) && (k + 1 < 242
        ==> adjacent(k)) by {
        if k == 100 {
        } else if k == 101 {
        } else if k == 102 {
        } else if k == 103 {
        } else if k == 104 {
        } else if k == 105 {
        } else if k == 106 {
        } else if k == 107 {
        } else if k == 108 {
        } else if k == 109 {
        } else if k == 110 {
        } else if k == 111 {
        } else if k == 112 {
        } else if k == 113 {
        } else if k == 114 {
        } else if k == 115 {
        } else if k == 116 {
        } else if k == 117 {
        } else if k == 118 {
        } else if k == 119 {
        }
    }
}

#[verifier::spinoff_prover]
#[verifier::rlimit(60)]
proof fn lemma_stretch_120()
    ensures
        stretch_ok(120, 140),
{
    reveal_strlit("KEY_KP5");
    reveal_strlit("KEY_KP6");
    reveal_strlit("KEY_KP7");
    reveal_strlit("KEY_KP8");
    reveal_strlit("KEY_KP9");
    reveal_strlit("KEY_KPASTERISK");
    reveal_strlit("KEY_KPCOMMA");
    reveal_strlit("KEY_KPDOT");
    reveal_strlit("KEY_KPENTER");
    reveal_strlit("KEY_KPEQUAL");
    reveal_strlit("KEY_KPJPCOMMA");
    reveal_strlit("KEY_KPLEFTPAREN");
    reveal_strlit("KEY_KPMINUS");
    reveal_strlit("KEY_KPPLUS");
    reveal_strlit("KEY_KPPLUSMINUS");
    reveal_strlit("KEY_KPRIGHTPAREN");
    reveal_strlit("KEY_KPSLASH");
    reveal_strlit("KEY_L");
    reveal_strlit("KEY_LEFT");
    reveal_strlit("KEY_LEFTALT");
    reveal_strlit("KEY_LEFTBRACE");
    reveal(ranked);
    reveal_with_fuel(key_chars_from, 24);
    reveal_with_fuel(before_from, 24);
    assert forall|k: int| 120 <= k < 140 implies key_name_ok(#[trigger] ranked(k)) && (k + 1 < 242
        ==> adjacent(k)) by {
        if k == 120 {
        } else if k == 121 {
        } else if k == 122 {
        } else if k == 123 {
        } else if k == 124 {
        } else if k == 125 {
        } else if k == 126 {
        } else if k == 127 {
        } else if k == 128 {
        } else if k == 129 {
        } else if k == 130 {
        } else if k == 131 {
        } else if k == 132 {
        } else if k == 133 {
        } else if k == 134 {
        } else if k == 135 {
        } else if k == 136 {
        } else if k == 137 {
        } else if k == 138 {
        } else if k == 139 {
        }
    }
}

#[verifier::spinoff_prover]
#[verifier::rlimit(60)]
proof fn lemma_stretch_140()
    ensures
        stretch_ok(140, 160),
{
    reveal_strlit("KEY_LEFTBRACE");
    reveal_strlit("KEY_LEFTCTRL");
    reveal_strlit("KEY_LEFTMETA");
    reveal_strlit("KEY_LEFTSHIFT");
    reveal_strlit("KEY_LINEFEED");
    reveal_strlit("KEY_M");
    reveal_strlit("KEY_MACRO");
    reveal_strlit("KEY_MAIL");
    reveal_strlit("KEY_MEDIA");
    reveal_strlit("KEY_MENU");
    reveal_strlit("KEY_MICMUTE");
    reveal_strlit("KEY_MINUS");
    reveal_strlit("KEY_MOVE");
    reveal_strlit("KEY_MSDOS");
    reveal_strlit("KEY_MUHENKAN");
    reveal_strlit("KEY_MUTE");
    reveal_strlit("KEY_N");
    reveal_strlit("KEY_NEW");
    reveal_strlit("KEY_NEXTSONG");
    reveal_strlit("KEY_NUMLOCK");
    reveal_strlit("KEY_O");
    reveal(ranked);
    reveal_with_fuel(key_chars_from, 24);
    reveal_with_fuel(before_from, 24);
    assert forall|k: int| 140 <= k < 160 implies key_name_ok(#[trigger] ranked(k)) && (k + 1 < 242
        ==> adjacent(k)) by {
        if k == 140 {
        } else if k == 141 {
        } else if k == 142 {
        } else if k == 143 {
        } else if k == 144 {
        } else if k == 145 {
        } else if k == 146 {
        } else if k == 147 {
        } else if k == 148 {
        } else if k == 149 {
        } else if k == 150 {
        } else if k == 151 {
        } else if k == 152 {
        } else if k == 153 {
        } else if k == 154 {
        } else if k == 155 {
        } else if k == 156 {
        } else if k == 157 {
        } else if k == 158 {
        } else if k == 159 {
        }
    }
}

#[verifier::spinoff_prover]
#[verifier::rlimit(60)]
proof fn lemma_stretch_160()
    ensures
        stretch_ok(160, 180),
{
    reveal_strlit("KEY_O");
    reveal_strlit("KEY_OPEN");
    reveal_strlit("KEY_P");
    reveal_strlit("KEY_PAGEDOWN");
    reveal_strlit("KEY_PAGEUP");
    reveal_strlit("KEY_PASTE");
    reveal_strlit("KEY_PAUSE");
    reveal_strlit("KEY_PAUSECD");
    reveal_strlit("KEY_PHONE");
    reveal_strlit("KEY_PLAY");
    reveal_strlit("KEY_PLAYCD");
    reveal_strlit("KEY_PLAYPAUSE");
    reveal_strlit("KEY_POWER");
    reveal_strlit("KEY_PREVIOUSSONG");
    reveal_strlit("KEY_PRINT");
    reveal_strlit("KEY_PROG1");
    reveal_strlit("KEY_PROG2");
    reveal_strlit("KEY_PROG3");
    reveal_strlit("KEY_PROG4");
    reveal_strlit("KEY_PROPS");
    reveal_strlit("KEY_Q");
    reveal(ranked);
    reveal_with_fuel(key_chars_from, 24);
    reveal_with_fuel(before_from, 24);
    assert forall|k: int| 160 <= k < 180 implies key_name_ok(#[trigger] ranked(k)) && (k + 1 < 242
        ==> adjacent(k)) by {
        if k == 160 {
        } else if k == 161 {
        } else if k == 162 {
        } else if k == 163 {
        } else if k == 164 {
        } else if k == 165 {
        } else if k == 166 {
        } else if k == 167 {
        } else if k == 168 {
        } else if k == 169 {
        } else if k == 170 {
        } else if k == 171 {
        } else if k == 172 {
        } else if k == 173 {
        } else if k == 174 {
        } else if k == 175 {
        } else if k == 176 {
        } else if k == 177 {
        } else if k == 178 {
        } else if k == 179 {
        }
    }
}

#[verifier::spinoff_prover]
#[verifier::rlimit(60)]
proof fn lemma_stretch_180()
    ensures
        stretch_ok(180, 200),
{
    reveal_strlit("KEY_Q");
    reveal_strlit("KEY_QUESTION");
    reveal_strlit("KEY_R");
    reveal_strlit("KEY_RECORD");
    reveal_strlit("KEY_REDO");
    reveal_strlit("KEY_REFRESH");
    reveal_strlit("KEY_REPLY");
    reveal_strlit("KEY_REWIND");
    reveal_strlit("KEY_RFKILL");
    reveal_strlit("KEY_RIGHT");
    reveal_strlit("KEY_RIGHTALT");
    reveal_strlit("KEY_RIGHTBRACE");
    reveal_strlit("KEY_RIGHTCTRL");
    reveal_strlit("KEY_RIGHTMETA");
    reveal_strlit("KEY_RIGHTSHIFT");
    reveal_strlit("KEY_RO");
    reveal_strlit("KEY_ROTATE_DISPLAY");
    reveal_strlit("KEY_S");
    reveal_strlit("KEY_SAVE");
    reveal_strlit("KEY_SCALE");
    reveal_strlit("KEY_SCROLLDOWN");
    reveal(ranked);
    reveal_with_fuel(key_chars_from, 24);
    reveal_with_fuel(before_from, 24);
    assert forall|k: int| 180 <= k < 200 implies key_name_ok(#[trigger] ranked(k)) && (k + 1 < 242
        ==> adjacent(k)) by {
        if k == 180 {
        } else if k == 181 {
        } else if k == 182 {
        } else if k == 183 {
        } else if k == 184 {
        } else if k == 185 {
        } else if k == 186 {
        } else if k == 187 {
        } else if k == 188 {
        } else if k == 189 {
        } else if k == 190 {
        } else if k == 191 {
        } else if k == 192 {
        } else if k == 193 {
        } else if k == 194 {
        } else if k == 195 {
        } else if k == 196 {
        } else if k == 197 {
        } else if k == 198 {
        } else if k == 199 {
        }
    }
}

#[verifier::spinoff_prover]
#[verifier::rlimit(60)]
proof fn lemma_stretch_200()
    ensures
        stretch_ok(200, 220),
{
    reveal_strlit("KEY_SCROLLDOWN");
    reveal_strlit("KEY_SCROLLLOCK");
    reveal_strlit("KEY_SCROLLUP");
    reveal_strlit("KEY_SEARCH");
    reveal_strlit("KEY_SEMICOLON");
    reveal_strlit("KEY_SEND");
    reveal_strlit("KEY_SENDFILE");
    reveal_strlit("KEY_SETUP");
    reveal_strlit("KEY_SHOP");
    reveal_strlit("KEY_SLASH");
    reveal_strlit("KEY_SLEEP");
    reveal_strlit("KEY_SOUND");
    reveal_strlit("KEY_SPACE");
    reveal_strlit("KEY_SPORT");
    reveal_strlit("KEY_STOP");
    reveal_strlit("KEY_STOPCD");
    reveal_strlit("KEY_SUSPEND");
    reveal_strlit("KEY_SWITCHVIDEOMODE");
    reveal_strlit("KEY_SYSRQ");
    reveal_strlit("KEY_T");
    reveal_strlit("KEY_TAB");
    reveal(ranked);
    reveal_with_fuel(key_chars_from, 24);
    reveal_with_fuel(before_from, 24);
    assert forall|k: int| 200 <= k < 220 implies key_name_ok(#[trigger] ranked(k)) && (k + 1 < 242
        ==> adjacent(k)) by {
        if k == 200 {
        } else if k == 201 {
        } else if k == 202 {
        } else if k == 203 {
        } else if k == 204 {
        } else if k == 205 {
        } else if k == 206 {
        } else if k == 207 {
        } else if k == 208 {
        } else if k == 209 {
        } else if k == 210 {
        } else if k == 211 {
        } else if k == 212 {
        } else if k == 213 {
        } else if k == 214 {
        } else if k == 215 {
        } else if k == 216 {
        } else if k == 217 {
        } else if k == 218 {
        } else if k == 219 {
        }
    }
}

#[verifier::spinoff_prover]
#[verifier::rlimit(60)]
proof fn lemma_stretch_220()
    ensures
        stretch_ok(220, 240),
{
    reveal_strlit("KEY_TAB");
    reveal_strlit("KEY_U");
    reveal_strlit("KEY_UNDO");
    reveal_strlit("KEY_UNKNOWN");
    reveal_strlit("KEY_UP");
    reveal_strlit("KEY_UWB");
    reveal_strlit("KEY_V");
    reveal_strlit("KEY_VIDEO_NEXT");
    reveal_strlit("KEY_VIDEO_PREV");
    reveal_strlit("KEY_VOLUMEDOWN");
    reveal_strlit("KEY_VOLUMEUP");
    reveal_strlit("KEY_W");
    reveal_strlit("KEY_WAKEUP");
    reveal_strlit("KEY_WLAN");
    reveal_strlit("KEY_WWAN");
    reveal_strlit("KEY_WWW");
    reveal_strlit("KEY_X");
    reveal_strlit("KEY_XFER");
    reveal_strlit("KEY_Y");
    reveal_strlit("KEY_YEN");
    reveal_strlit("KEY_Z");
    reveal(ranked);
    reveal_with_fuel(key_chars_from, 24);
    reveal_with_fuel(before_from, 24);
    assert forall|k: int| 220 <= k < 240 implies key_name_ok(#[trigger] ranked(k)) && (k + 1 < 242
        ==> adjacent(k)) by {
        if k == 220 {
        } else if k == 221 {
        } else if k == 222 {
        } else if k == 223 {
        } else if k == 224 {
        } else if k == 225 {
        } else if k == 226 {
        } else if k == 227 {
        } else if k == 228 {
        } else if k == 229 {
        } else if k == 230 {
        } else if k == 231 {
        } else if k == 232 {
        } else if k == 233 {
        } else if k == 234 {
        } else if k == 235 {
        } else if k == 236 {
        } else if k == 237 {
        } else if k == 238 {
        } else if k == 239 {
        }
    }
}

#[verifier::spinoff_prover]
#[verifier::rlimit(60)]
proof fn lemma_stretch_240()
    ensures
        stretch_ok(240, 242),
{
    reveal_strlit("KEY_Z");
    reveal_strlit("KEY_ZENKAKUHANKAKU");
    reveal(ranked);
    reveal_with_fuel(key_chars_from, 24);
    reveal_with_fuel(before_from, 24);
    assert forall|k: int| 240 <= k < 242 implies key_name_ok(#[trigger] ranked(k)) && (k + 1 < 242
        ==> adjacent(k)) by {
        if k == 240 {
        } else if k == 241 {
        }
    }
}

#[verifier::spinoff_prover]
proof fn lemma_position_0()
    ensures
        forall|i: int| 0 <= i < 60 ==> #[trigger] POSITION@[i] < 242 && BY_NAME@[POSITION@[i] as int] == i,
{
    assert forall|i: int| 0 <= i < 60 implies #[trigger] POSITION@[i] < 242 && BY_NAME@[POSITION@[i] as int] == i by {
        if i == 0 {
        } else if i == 1 {
        } else if i == 2 {
        } else if i == 3 {
        } else if i == 4 {
        } else if i == 5 {
        } else if i == 6 {
        } else if i == 7 {
        } else if i == 8 {
        } else if i == 9 {
        } else if i == 10 {
        } else if i == 11 {
        } else if i == 12 {
        } else if i == 13 {
        } else if i == 14 {
        } else if i == 15 {
        } else if i == 16 {
        } else if i == 17 {
        } else if i == 18 {
        } else if i == 19 {
        } else if i == 20 {
        } else if i == 21 {
        } else if i == 22 {
        } else if i == 23 {
        } else if i == 24 {
        } else if i == 25 {
        } else if i == 26 {
        } else if i == 27 {
        } else if i == 28 {
        } else if i == 29 {
        } else if i == 30 {
        } else if i == 31 {
        } else if i == 32 {
        } else if i == 33 {
        } else if i == 34 {
        } else if i == 35 {
        } else if i == 36 {
        } else if i == 37 {
        } else if i == 38 {
        } else if i == 39 {
        } else if i == 40 {
        } else if i == 41 {
        } else if i == 42 {
        } else if i == 43 {
        } else if i == 44 {
        } else if i == 45 {
        } else if i == 46 {
        } else if i == 47 {
        } else if i == 48 {
        } else if i == 49 {
        } else if i == 50 {
        } else if i == 51 {
        } else if i == 52 {
        } else if i == 53 {
        } else if i == 54 {
        } else if i == 55 {
        } else if i == 56 {
        } else if i == 57 {
        } else if i == 58 {
        } else if i == 59 {
        }
    }
}

#[verifier::spinoff_prover]
proof fn lemma_position_60()
    ensures
        forall|i: int| 60 <= i < 120 ==> #[trigger] POSITION@[i] < 242 && BY_NAME@[POSITION@[i] as int] == i,
{
    assert forall|i: int| 60 <= i < 120 implies #[trigger] POSITION@[i] < 242 && BY_NAME@[POSITION@[i] as int] == i by {
        if i == 60 {
        } else if i == 61 {
        } else if i == 62 {
        } else if i == 63 {
        } else if i == 64 {
        } else if i == 65 {
        } else if i == 66 {
        } else if i == 67 {
        } else if i == 68 {
        } else if i == 69 {
        } else if i == 70 {
        } else if i == 71 {
        } else if i == 72 {
        } else if i == 73 {
        } else if i == 74 {
        } else if i == 75 {
        } else if i == 76 {
        } else if i == 77 {
        } else if i == 78 {
        } else if i == 79 {
        } else if i == 80 {
        } else if i == 81 {
        } else if i == 82 {
        } else if i == 83 {
        } else if i == 84 {
        } else if i == 85 {
        } else if i == 86 {
        } else if i == 87 {
        } else if i == 88 {
        } else if i == 89 {
        } else if i == 90 {
        } else if i == 91 {
        } else if i == 92 {
        } else if i == 93 {
        } else if i == 94 {
        } else if i == 95 {
        } else if i == 96 {
        } else if i == 97 {
        } else if i == 98 {
        } else if i == 99 {
        } else if i == 100 {
        } else if i == 101 {
        } else if i == 102 {
        } else if i == 103 {
        } else if i == 104 {
        } else if i == 105 {
        } else if i == 106 {
        } else if i == 107 {
        } else if i == 108 {
        } else if i == 109 {
        } else if i == 110 {
        } else if i == 111 {
        } else if i == 112 {
        } else if i == 113 {
        } else if i == 114 {
        } else if i == 115 {
        } else if i == 116 {
        } else if i == 117 {
        } else if i == 118 {
        } else if i == 119 {
        }
    }
}

#[verifier::spinoff_prover]
proof fn lemma_position_120()
    ensures
        forall|i: int| 120 <= i < 180 ==> #[trigger] POSITION@[i] < 242 && BY_NAME@[POSITION@[i] as int] == i,
{
    assert forall|i: int| 120 <= i < 180 implies #[trigger] POSITION@[i] < 242 && BY_NAME@[POSITION@[i] as int] == i by {
        if i == 120 {
        } else if i == 121 {
        } else if i == 122 {
        } else if i == 123 {
        } else if i == 124 {
        } else if i == 125 {
        } else if i == 126 {
        } else if i == 127 {
        } else if i == 128 {
        } else if i == 129 {
        } else if i == 130 {
        } else if i == 131 {
        } else if i == 132 {
        } else if i == 133 {
        } else if i == 134 {
        } else if i == 135 {
        } else if i == 136 {
        } else if i == 137 {
        } else if i == 138 {
        } else if i == 139 {
        } else if i == 140 {
        } else if i == 141 {
        } else if i == 142 {
        } else if i == 143 {
        } else if i == 144 {
        } else if i == 145 {
        } else if i == 146 {
        } else if i == 147 {
        } else if i == 148 {
        } else if i == 149 {
        } else if i == 150 {
        } else if i == 151 {
        } else if i == 152 {
        } else if i == 153 {
        } else if i == 154 {
        } else if i == 155 {
        } else if i == 156 {
        } else if i == 157 {
        } else if i == 158 {
        } else if i == 159 {
        } else if i == 160 {
        } else if i == 161 {
        } else if i == 162 {
        } else if i == 163 {
        } else if i == 164 {
        } else if i == 165 {
        } else if i == 166 {
        } else if i == 167 {
        } else if i == 168 {
        } else if i == 169 {
        } else if i == 170 {
        } else if i == 171 {
        } else if i == 172 {
        } else if i == 173 {
        } else if i == 174 {
        } else if i == 175 {
        } else if i == 176 {
        } else if i == 177 {
        } else if i == 178 {
        } else if i == 179 {
        }
    }
}

#[verifier::spinoff_prover]
proof fn lemma_position_180()
    ensures
        forall|i: int| 180 <= i < 240 ==> #[trigger] POSITION@[i] < 242 && BY_NAME@[POSITION@[i] as int] == i,
{
    assert forall|i: int| 180 <= i < 240 implies #[trigger] POSITION@[i] < 242 && BY_NAME@[POSITION@[i] as int] == i by {
        if i == 180 {
        } else if i == 181 {
        } else if i == 182 {
        } else if i == 183 {
        } else if i == 184 {
        } else if i == 185 {
        } else if i == 186 {
        } else if i == 187 {
        } else if i == 188 {
        } else if i == 189 {
        } else if i == 190 {
        } else if i == 191 {
        } else if i == 192 {
        } else if i == 193 {
        } else if i == 194 {
        } else if i == 195 {
        } else if i == 196 {
        } else if i == 197 {
        } else if i == 198 {
        } else if i == 199 {
        } else if i == 200 {
        } else if i == 201 {
        } else if i == 202 {
        } else if i == 203 {
        } else if i == 204 {
        } else if i == 205 {
        } else if i == 206 {
        } else if i == 207 {
        } else if i == 208 {
        } else if i == 209 {
        } else if i == 210 {
        } else if i == 211 {
        } else if i == 212 {
        } else if i == 213 {
        } else if i == 214 {
        } else if i == 215 {
        } else if i == 216 {
        } else if i == 217 {
        } else if i == 218 {
        } else if i == 219 {
        } else if i == 220 {
        } else if i == 221 {
        } else if i == 222 {
        } else if i == 223 {
        } else if i == 224 {
        } else if i == 225 {
        } else if i == 226 {
        } else if i == 227 {
        } else if i == 228 {
        } else if i == 229 {
        } else if i == 230 {
        } else if i == 231 {
        } else if i == 232 {
        } else if i == 233 {
        } else if i == 234 {
        } else if i == 235 {
        } else if i == 236 {
        } else if i == 237 {
        } else if i == 238 {
        } else if i == 239 {
        }
    }
}

#[verifier::spinoff_prover]
proof fn lemma_position_240()
    ensures
        forall|i: int| 240 <= i < 242 ==> #[trigger] POSITION@[i] < 242 && BY_NAME@[POSITION@[i] as int] == i,
{
    assert forall|i: int| 240 <= i < 242 implies #[trigger] POSITION@[i] < 242 && BY_NAME@[POSITION@[i] as int] == i by {
        if i == 240 {
        } else if i == 241 {
        }
    }
}

/// The whole name order: names of the right shape, strictly increasing.
proof fn lemma_ranked()
    ensures
        stretch_ok(0, 242),
{
    lemma_stretch_0();
    lemma_stretch_20();
    lemma_stretch_40();
    lemma_stretch_60();
    lemma_stretch_80();
    lemma_stretch_100();
    lemma_stretch_120();
    lemma_stretch_140();
    lemma_stretch_160();
    lemma_stretch_180();
    lemma_stretch_200();
    lemma_stretch_220();
    lemma_stretch_240();
    assert forall|k: int| 0 <= k < 242 implies key_name_ok(#[trigger] ranked(k)) && (k + 1 < 242
        ==> adjacent(k)) by {
        if k < 20 {
        } else if k < 40 {
        } else if k < 60 {
        } else if k < 80 {
        } else if k < 100 {
        } else if k < 120 {
        } else if k < 140 {
        } else if k < 160 {
        } else if k < 180 {
        } else if k < 200 {
        } else if k < 220 {
        } else if k < 240 {
        } else if k < 242 {
        }
    }
}

/// `BY_NAME` and `POSITION` undo each other on table indexes.
proof fn lemma_position()
    ensures
        forall|i: int| 0 <= i < 242 ==> #[trigger] POSITION@[i] < 242 && BY_NAME@[POSITION@[i] as int] == i,
{
    lemma_position_0();
    lemma_position_60();
    lemma_position_120();
    lemma_position_180();
    lemma_position_240();
}

/// Names further on in the name order come later.
proof fn lemma_ranked_increasing(a: int, b: int)
    requires
        0 <= a < b < 242,
        stretch_ok(0, 242),
    ensures
        before_from(ranked(a), ranked(b), 0),
    decreases b - a,
{
    assert(adjacent(a));
    if b > a + 1 {
        lemma_ranked_increasing(a + 1, b);
        lemma_before_transitive(ranked(a), ranked(a + 1), ranked(b), 0);
    }
}

/// Every name of the key table is a key name, and no two are the same.
pub proof fn lemma_key_names()
    ensures
        forall|i: int| 0 <= i < KEYS@.len() ==> key_name_ok(#[trigger] KEYS@[i].0@),
        forall|i: int, j: int|
            0 <= i < KEYS@.len() && 0 <= j < KEYS@.len() && i != j ==> #[trigger] KEYS@[i].0@
                != #[trigger] KEYS@[j].0@,
{
    lemma_ranked();
    lemma_position();
    reveal(ranked);
    assert forall|i: int| 0 <= i < KEYS@.len() implies key_name_ok(#[trigger] KEYS@[i].0@) by {
        let p = POSITION@[i] as int;
        assert(ranked(p) == KEYS@[i].0@);
    }
    assert forall|i: int, j: int|
        0 <= i < KEYS@.len() && 0 <= j < KEYS@.len() && i != j implies #[trigger] KEYS@[i].0@
            != #[trigger] KEYS@[j].0@ by {
        let p = POSITION@[i] as int;
        let q = POSITION@[j] as int;
        assert(ranked(p) == KEYS@[i].0@);
        assert(ranked(q) == KEYS@[j].0@);
        assert(p != q);
        if p < q {
            lemma_ranked_increasing(p, q);
            if KEYS@[i].0@ == KEYS@[j].0@ {
                lemma_before_irreflexive(ranked(p), 0);
            }
        } else {
            lemma_ranked_increasing(q, p);
            if KEYS@[i].0@ == KEYS@[j].0@ {
                lemma_before_irreflexive(ranked(q), 0);
            }
        }
    }
}

/// A key name from the table reads back as the code of its entry, and is
/// one word with no `#`.
pub proof fn lemma_key_name_reads_back(i: int)
    requires
        0 <= i < KEYS@.len(),
    ensures
        key_code_of(KEYS@[i].0@) == Some(KEYS@[i].1),
        KEYS@[i].0@.len() > 0,
        forall|j: int| 0 <= j < KEYS@[i].0@.len() ==> !white_space(#[trigger] KEYS@[i].0@[j]) && KEYS@[i].0@[j] != '#',
{
    lemma_key_names();
    let n = KEYS@[i].0@;
    assert(key_name_ok(n));
    lemma_key_chars(n, 0);
    assert forall|j: int| 0 <= j < n.len() implies !white_space(#[trigger] n[j]) && n[j] != '#' by {
        assert(key_char(n[j]));
    }
    assert(unsigned_digits(n) == n);
    assert(!is_digit(n[0]));
    assert(unsigned_value(n, 65535) is None);
    assert(upper_all(n) =~= n) by {
        assert forall|j: int| 0 <= j < n.len() implies upper_all(n)[j] == n[j] by {
            assert(key_char(n[j]));
        }
    }
    reveal_strlit("KEY_");
    assert(n.take(4) =~= "KEY_"@);
    assert(full_key_name(upper_all(n)) == n);
    assert forall|j: int| 0 <= j < i implies #[trigger] KEYS@[j].0@ != n by {
        assert(KEYS@[j].0@ != KEYS@[i].0@);
    }
    assert(first_name(KEYS@, n, i));
    let k = choose|k: int| first_name(KEYS@, n, k);
    assert(k == i) by {
        if k < i {
            assert(KEYS@[k].0@ != n);
        } else if k > i {
            assert(KEYS@[i].0@ != n);
        }
    }
    assert(name_pos(KEYS@, n) == Some(i));
    assert(code_named(KEYS@, n) == Some(KEYS@[i].1));
}

/// What `key_code` reads back: any code written in decimal is that code,
/// and the name `key_name` gives a code reads back as that code, written
/// as it stands or in lower case.
pub proof fn law_key_name_then_code(c: u16)
    ensures
        key_code_of(dec(c as nat)) == Some(c),
        code_pos(KEYS@, c) matches Some(i) ==> key_code_of(KEYS@[i].0@) == Some(c) && key_code_of(
            lower_all(KEYS@[i].0@),
        ) == Some(c),
{
    lemma_unsigned_dec(c as nat, 65535);
    if let Some(i) = code_pos(KEYS@, c) {
        assert(first_code(KEYS@, c, i));
        lemma_key_name_reads_back(i);
        lemma_lower_key_name(i);
    }
}

/// A key name of the table reads the same in lower case.
proof fn lemma_lower_key_name(i: int)
    requires
        0 <= i < KEYS@.len(),
    ensures
        key_code_of(lower_all(KEYS@[i].0@)) == key_code_of(KEYS@[i].0@),
{
    lemma_key_names();
    let n = KEYS@[i].0@;
    let l = lower_all(n);
    assert(key_name_ok(n));
    lemma_key_chars(n, 0);
    assert(upper_all(l) =~= n) by {
        assert forall|j: int| 0 <= j < n.len() implies upper_all(l)[j] == n[j] by {
            assert(key_char(n[j]));
            assert(l[j] == lower(n[j]));
            if 'A' <= n[j] <= 'Z' {
                assert(upper(lower(n[j])) == n[j]);
            }
        }
    }
    assert(upper_all(n) =~= n) by {
        assert forall|j: int| 0 <= j < n.len() implies upper_all(n)[j] == n[j] by {
            assert(key_char(n[j]));
        }
    }
    assert(l[0] == 'k');
    assert(unsigned_digits(l) == l);
    assert(!is_digit(l[0]));
    assert(unsigned_value(l, 65535) is None);
    assert(unsigned_digits(n) == n);
    assert(!is_digit(n[0]));
    assert(unsigned_value(n, 65535) is None);
}

} // verus!
