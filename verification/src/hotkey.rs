//! Global shortcut strings such as "Ctrl+Shift+V": parsing into a set of
//! modifiers and one key. Registering the shortcut with the system is the
//! application's part.

use vstd::prelude::*;

use crate::i18n::{
    shortcut_multi_keys, shortcut_multi_keys_text, shortcut_no_key, shortcut_no_key_text,
    shortcut_no_modifier, shortcut_no_modifier_text, shortcut_unknown_key,
    shortcut_unknown_key_text,
};
use crate::text::{
    all_ascii, all_ascii_digits, ascii_lowered, ascii_uppered, chars_of, decimal_value, find_char,
    find_char_from, is_ascii_digit, lemma_trim_keeps_ascii, lowercase, segments_from, str_eq, string_from_chars, subvec, to_lowercase, to_uppercase, trim,
    trim_chars, uppercase,
};

verus! {

/// A modifier key.
#[derive(Clone, Copy, Debug, PartialEq, Eq, Structural)]
pub enum Modifier {
    Control,
    Shift,
    Alt,
    Meta,
}

/// The modifiers a shortcut holds.
#[derive(Clone, Copy, Debug, PartialEq, Eq, Structural)]
pub struct Modifiers {
    pub control: bool,
    pub shift: bool,
    pub alt: bool,
    pub meta: bool,
}

/// The key of a shortcut: a letter `A`..`Z`, a digit, a function key
/// `F1`..`F24`, or a named key.
#[derive(Clone, Copy, Debug, PartialEq, Eq, Structural)]
pub enum KeyCode {
    Letter(char),
    Digit(u8),
    Function(u8),
    Space,
    Tab,
    Enter,
    Escape,
    Backspace,
    Delete,
    Insert,
    Home,
    End,
    PageUp,
    PageDown,
    ArrowUp,
    ArrowDown,
    ArrowLeft,
    ArrowRight,
}

/// A parsed shortcut: at least one modifier and exactly one key.
#[derive(Clone, Copy, Debug, PartialEq, Eq, Structural)]
pub struct Shortcut {
    pub modifiers: Modifiers,
    pub key: KeyCode,
}

impl Modifiers {
    /// No modifier.
    pub open spec fn none() -> Modifiers {
        Modifiers { control: false, shift: false, alt: false, meta: false }
    }

    /// These modifiers and `m`.
    pub open spec fn with(self, m: Modifier) -> Modifiers {
        match m {
            Modifier::Control => Modifiers { control: true, shift: self.shift, alt: self.alt, meta: self.meta },
            Modifier::Shift => Modifiers { control: self.control, shift: true, alt: self.alt, meta: self.meta },
            Modifier::Alt => Modifiers { control: self.control, shift: self.shift, alt: true, meta: self.meta },
            Modifier::Meta => Modifiers { control: self.control, shift: self.shift, alt: self.alt, meta: true },
        }
    }

    /// No modifier is set.
    pub open spec fn is_none(self) -> bool {
        !self.control && !self.shift && !self.alt && !self.meta
    }
}

/// The modifier a lowercased part names, if any.
pub open spec fn modifier_named(lower: Seq<char>) -> Option<Modifier> {
    if lower == "ctrl"@ || lower == "control"@ {
        Some(Modifier::Control)
    } else if lower == "shift"@ {
        Some(Modifier::Shift)
    } else if lower == "alt"@ || lower == "option"@ {
        Some(Modifier::Alt)
    } else if lower == "meta"@ || lower == "win"@ || lower == "command"@ || lower == "super"@ {
        Some(Modifier::Meta)
    } else {
        None
    }
}

/// The number of a function key from the digits after `F`: `1` to `24`,
/// written without a leading zero.
pub open spec fn function_key_number(rest: Seq<char>) -> Option<u8> {
    if 1 <= rest.len() <= 2 && all_ascii_digits(rest) && rest[0] as u32 != 0x30 && decimal_value(rest) <= 24 {
        Some(decimal_value(rest) as u8)
    } else {
        None
    }
}

/// The key an uppercased part names, if any.
pub open spec fn key_named(upper: Seq<char>) -> Option<KeyCode> {
    if upper.len() == 1 && 0x41 <= (upper[0] as u32) <= 0x5A {
        Some(KeyCode::Letter(upper[0]))
    } else if upper.len() == 1 && is_ascii_digit(upper[0]) {
        Some(KeyCode::Digit((upper[0] as u32 - 0x30) as u8))
    } else if upper.len() >= 2 && upper[0] == 'F' && function_key_number(upper.drop_first()) is Some {
        Some(KeyCode::Function(function_key_number(upper.drop_first())->0))
    } else if upper == "SPACE"@ {
        Some(KeyCode::Space)
    } else if upper == "TAB"@ {
        Some(KeyCode::Tab)
    } else if upper == "ENTER"@ || upper == "RETURN"@ {
        Some(KeyCode::Enter)
    } else if upper == "ESCAPE"@ || upper == "ESC"@ {
        Some(KeyCode::Escape)
    } else if upper == "BACKSPACE"@ {
        Some(KeyCode::Backspace)
    } else if upper == "DELETE"@ || upper == "DEL"@ {
        Some(KeyCode::Delete)
    } else if upper == "INSERT"@ || upper == "INS"@ {
        Some(KeyCode::Insert)
    } else if upper == "HOME"@ {
        Some(KeyCode::Home)
    } else if upper == "END"@ {
        Some(KeyCode::End)
    } else if upper == "PAGEUP"@ {
        Some(KeyCode::PageUp)
    } else if upper == "PAGEDOWN"@ {
        Some(KeyCode::PageDown)
    } else if upper == "UP"@ || upper == "ARROWUP"@ {
        Some(KeyCode::ArrowUp)
    } else if upper == "DOWN"@ || upper == "ARROWDOWN"@ {
        Some(KeyCode::ArrowDown)
    } else if upper == "LEFT"@ || upper == "ARROWLEFT"@ {
        Some(KeyCode::ArrowLeft)
    } else if upper == "RIGHT"@ || upper == "ARROWRIGHT"@ {
        Some(KeyCode::ArrowRight)
    } else {
        None
    }
}

/// Reads the '+'-separated parts of shortcut `s`, trimmed, empty parts
/// skipped: each part names a modifier (compared after `lower`) or else the
/// key (compared after `upper`), and a second key is an error.
pub open spec fn shortcut_fold_by(
    lower: spec_fn(Seq<char>) -> Seq<char>,
    upper: spec_fn(Seq<char>) -> Seq<char>,
    lang: Seq<char>,
    s: Seq<char>,
    parts: Seq<Seq<char>>,
    mods: Modifiers,
    key: Option<KeyCode>,
) -> Result<(Modifiers, Option<KeyCode>), Seq<char>>
    decreases parts.len(),
{
    if parts.len() == 0 {
        Ok((mods, key))
    } else {
        let p = trim(parts[0]);
        if p.len() == 0 {
            shortcut_fold_by(lower, upper, lang, s, parts.drop_first(), mods, key)
        } else {
            match modifier_named(lower(p)) {
                Some(m) => shortcut_fold_by(lower, upper, lang, s, parts.drop_first(), mods.with(m), key),
                None => if key is Some {
                    Err(shortcut_multi_keys_text(lang, s))
                } else {
                    match key_named(upper(p)) {
                        Some(k) => shortcut_fold_by(lower, upper, lang, s, parts.drop_first(), mods, Some(k)),
                        None => Err(shortcut_unknown_key_text(lang, p)),
                    }
                },
            }
        }
    }
}

/// The fold with the case mappings of `str::to_lowercase` and
/// `str::to_uppercase`.
pub open spec fn shortcut_fold(
    lang: Seq<char>,
    s: Seq<char>,
    parts: Seq<Seq<char>>,
    mods: Modifiers,
    key: Option<KeyCode>,
) -> Result<(Modifiers, Option<KeyCode>), Seq<char>> {
    shortcut_fold_by(|p: Seq<char>| lowercase(p), |p: Seq<char>| uppercase(p), lang, s, parts, mods, key)
}

/// The fold with ASCII case mappings, which is what the Unicode ones do on
/// ASCII text.
pub open spec fn ascii_shortcut_fold(
    lang: Seq<char>,
    s: Seq<char>,
    parts: Seq<Seq<char>>,
    mods: Modifiers,
    key: Option<KeyCode>,
) -> Result<(Modifiers, Option<KeyCode>), Seq<char>> {
    shortcut_fold_by(|p: Seq<char>| ascii_lowered(p), |p: Seq<char>| ascii_uppered(p), lang, s, parts, mods, key)
}

/// The shortcut that a fold result describes, or the message saying why
/// it is invalid.
pub open spec fn shortcut_from_fold(
    lang: Seq<char>,
    s: Seq<char>,
    folded: Result<(Modifiers, Option<KeyCode>), Seq<char>>,
) -> Result<Shortcut, Seq<char>> {
    match folded {
        Err(e) => Err(e),
        Ok((mods, key)) => match key {
            None => Err(shortcut_no_key_text(lang, s)),
            Some(k) => if mods.is_none() {
                Err(shortcut_no_modifier_text(lang, s))
            } else {
                Ok(Shortcut { modifiers: mods, key: k })
            },
        },
    }
}

/// The shortcut that `s` describes, or the message saying why it is
/// invalid.
pub open spec fn shortcut_of(lang: Seq<char>, s: Seq<char>) -> Result<Shortcut, Seq<char>> {
    shortcut_from_fold(lang, s, shortcut_fold(lang, s, segments_from(s, 0, '+'), Modifiers::none(), None))
}

/// `shortcut_of` for ASCII text, where the case mappings are ASCII ones.
pub open spec fn ascii_shortcut_of(lang: Seq<char>, s: Seq<char>) -> Result<Shortcut, Seq<char>> {
    shortcut_from_fold(lang, s, ascii_shortcut_fold(lang, s, segments_from(s, 0, '+'), Modifiers::none(), None))
}

/// The modifier names, character by character.
proof fn lemma_reveal_modifier_names()
    ensures
        "ctrl"@ =~= seq!['c', 't', 'r', 'l'],
        "control"@ =~= seq!['c', 'o', 'n', 't', 'r', 'o', 'l'],
        "shift"@ =~= seq!['s', 'h', 'i', 'f', 't'],
        "alt"@ =~= seq!['a', 'l', 't'],
        "option"@ =~= seq!['o', 'p', 't', 'i', 'o', 'n'],
        "meta"@ =~= seq!['m', 'e', 't', 'a'],
        "win"@ =~= seq!['w', 'i', 'n'],
        "command"@ =~= seq!['c', 'o', 'm', 'm', 'a', 'n', 'd'],
        "super"@ =~= seq!['s', 'u', 'p', 'e', 'r'],
{
    reveal_strlit("ctrl");
    reveal_strlit("control");
    reveal_strlit("shift");
    reveal_strlit("alt");
    reveal_strlit("option");
    reveal_strlit("meta");
    reveal_strlit("win");
    reveal_strlit("command");
    reveal_strlit("super");
}

/// Each modifier flag of a parsed shortcut is set exactly when it was set
/// before or some non-empty part, case-mapped, names it: `ctrl` or `control`
/// for Control, `shift` for Shift, `alt` or `option` for Alt, and `meta`,
/// `win`, `command` or `super` for Meta.
pub proof fn lemma_modifier_flags_follow_parts(
    lower: spec_fn(Seq<char>) -> Seq<char>,
    upper: spec_fn(Seq<char>) -> Seq<char>,
    lang: Seq<char>,
    s: Seq<char>,
    parts: Seq<Seq<char>>,
    mods: Modifiers,
    key: Option<KeyCode>,
)
    ensures
        shortcut_fold_by(lower, upper, lang, s, parts, mods, key) matches Ok((m, _)) ==> {
            &&& m.control <==> (mods.control || exists|i: int|
                0 <= i < parts.len() && trim(#[trigger] parts[i]).len() > 0 && (lower(trim(parts[i]))
                    == seq!['c', 't', 'r', 'l'] || lower(trim(parts[i])) == seq![
                    'c',
                    'o',
                    'n',
                    't',
                    'r',
                    'o',
                    'l',
                ]))
            &&& m.shift <==> (mods.shift || exists|i: int|
                0 <= i < parts.len() && trim(#[trigger] parts[i]).len() > 0 && lower(trim(parts[i]))
                    == seq!['s', 'h', 'i', 'f', 't'])
            &&& m.alt <==> (mods.alt || exists|i: int|
                0 <= i < parts.len() && trim(#[trigger] parts[i]).len() > 0 && (lower(trim(parts[i]))
                    == seq!['a', 'l', 't'] || lower(trim(parts[i])) == seq!['o', 'p', 't', 'i', 'o', 'n']))
            &&& m.meta <==> (mods.meta || exists|i: int|
                0 <= i < parts.len() && trim(#[trigger] parts[i]).len() > 0 && (lower(trim(parts[i]))
                    == seq!['m', 'e', 't', 'a'] || lower(trim(parts[i])) == seq!['w', 'i', 'n'] || lower(
                    trim(parts[i]),
                ) == seq!['c', 'o', 'm', 'm', 'a', 'n', 'd'] || lower(trim(parts[i])) == seq![
                    's',
                    'u',
                    'p',
                    'e',
                    'r',
                ]))
        },
    decreases parts.len(),
{
    lemma_reveal_modifier_names();
    if parts.len() > 0 {
        let p = trim(parts[0]);
        let rest = parts.drop_first();
        assert forall|i: int| 0 <= i < rest.len() implies #[trigger] rest[i] == parts[i + 1] by {}
        if p.len() == 0 {
            lemma_modifier_flags_follow_parts(lower, upper, lang, s, rest, mods, key);
        } else {
            match modifier_named(lower(p)) {
                Some(md) => {
                    lemma_modifier_flags_follow_parts(lower, upper, lang, s, rest, mods.with(md), key);
                },
                None => {
                    if key is None {
                        if let Some(k) = key_named(upper(p)) {
                            lemma_modifier_flags_follow_parts(lower, upper, lang, s, rest, mods, Some(k));
                        }
                    }
                },
            }
        }
        if shortcut_fold_by(lower, upper, lang, s, parts, mods, key) is Ok {
            let m = shortcut_fold_by(lower, upper, lang, s, parts, mods, key)->Ok_0.0;
            assert(m.control <==> (mods.control || exists|i: int|
                0 <= i < parts.len() && trim(#[trigger] parts[i]).len() > 0 && (lower(trim(parts[i]))
                    == seq!['c', 't', 'r', 'l'] || lower(trim(parts[i])) == seq!['c', 'o', 'n', 't', 'r', 'o', 'l'])))
                by {
                if exists|i: int|
                    0 <= i < parts.len() && trim(#[trigger] parts[i]).len() > 0 && (lower(trim(parts[i]))
                        == seq!['c', 't', 'r', 'l'] || lower(trim(parts[i])) == seq!['c', 'o', 'n', 't', 'r', 'o', 'l']) {
                    let i = choose|i: int|
                        0 <= i < parts.len() && trim(#[trigger] parts[i]).len() > 0 && (lower(trim(parts[i]))
                            == seq!['c', 't', 'r', 'l'] || lower(trim(parts[i])) == seq!['c', 'o', 'n', 't', 'r', 'o', 'l']);
                    if i > 0 {
                        assert(rest[i - 1] == parts[i]);
                    }
                }
            }
            assert(m.shift <==> (mods.shift || exists|i: int|
                0 <= i < parts.len() && trim(#[trigger] parts[i]).len() > 0 && lower(trim(parts[i]))
                    == seq!['s', 'h', 'i', 'f', 't'])) by {
                if exists|i: int|
                    0 <= i < parts.len() && trim(#[trigger] parts[i]).len() > 0 && lower(trim(parts[i]))
                        == seq!['s', 'h', 'i', 'f', 't'] {
                    let i = choose|i: int|
                        0 <= i < parts.len() && trim(#[trigger] parts[i]).len() > 0 && lower(trim(parts[i]))
                            == seq!['s', 'h', 'i', 'f', 't'];
                    if i > 0 {
                        assert(rest[i - 1] == parts[i]);
                    }
                }
            }
            assert(m.alt <==> (mods.alt || exists|i: int|
                0 <= i < parts.len() && trim(#[trigger] parts[i]).len() > 0 && (lower(trim(parts[i]))
                    == seq!['a', 'l', 't'] || lower(trim(parts[i])) == seq!['o', 'p', 't', 'i', 'o', 'n']))) by {
                if exists|i: int|
                    0 <= i < parts.len() && trim(#[trigger] parts[i]).len() > 0 && (lower(trim(parts[i]))
                        == seq!['a', 'l', 't'] || lower(trim(parts[i])) == seq!['o', 'p', 't', 'i', 'o', 'n']) {
                    let i = choose|i: int|
                        0 <= i < parts.len() && trim(#[trigger] parts[i]).len() > 0 && (lower(trim(parts[i]))
                            == seq!['a', 'l', 't'] || lower(trim(parts[i])) == seq!['o', 'p', 't', 'i', 'o', 'n']);
                    if i > 0 {
                        assert(rest[i - 1] == parts[i]);
                    }
                }
            }
            assert(m.meta <==> (mods.meta || exists|i: int|
                0 <= i < parts.len() && trim(#[trigger] parts[i]).len() > 0 && (lower(trim(parts[i]))
                    == seq!['m', 'e', 't', 'a'] || lower(trim(parts[i])) == seq!['w', 'i', 'n'] || lower(trim(parts[i]))
                    == seq!['c', 'o', 'm', 'm', 'a', 'n', 'd'] || lower(trim(parts[i])) == seq!['s', 'u', 'p', 'e', 'r'])))
                by {
                if exists|i: int|
                    0 <= i < parts.len() && trim(#[trigger] parts[i]).len() > 0 && (lower(trim(parts[i]))
                        == seq!['m', 'e', 't', 'a'] || lower(trim(parts[i])) == seq!['w', 'i', 'n'] || lower(
                        trim(parts[i]),
                    ) == seq!['c', 'o', 'm', 'm', 'a', 'n', 'd'] || lower(trim(parts[i])) == seq!['s', 'u', 'p', 'e', 'r']) {
                    let i = choose|i: int|
                        0 <= i < parts.len() && trim(#[trigger] parts[i]).len() > 0 && (lower(trim(parts[i]))
                            == seq!['m', 'e', 't', 'a'] || lower(trim(parts[i])) == seq!['w', 'i', 'n'] || lower(
                            trim(parts[i]),
                        ) == seq!['c', 'o', 'm', 'm', 'a', 'n', 'd'] || lower(trim(parts[i])) == seq!['s', 'u', 'p', 'e', 'r']);
                    if i > 0 {
                        assert(rest[i - 1] == parts[i]);
                    }
                }
            }
        }
    }
}

/// A parsed shortcut has a modifier flag set exactly when one of its
/// '+'-separated parts, trimmed and lowercased, names it (`ctrl`/`control`,
/// `shift`, `alt`/`option`, `meta`/`win`/`command`/`super`).
pub proof fn lemma_shortcut_modifiers_named_by_parts(lang: Seq<char>, s: Seq<char>)
    ensures
        shortcut_of(lang, s) matches Ok(sc) ==> {
            let parts = segments_from(s, 0, '+');
            &&& sc.modifiers.control <==> exists|i: int|
                0 <= i < parts.len() && trim(#[trigger] parts[i]).len() > 0 && (lowercase(trim(parts[i])) == seq!['c', 't', 'r', 'l']
                    || lowercase(trim(parts[i])) == seq!['c', 'o', 'n', 't', 'r', 'o', 'l'])
            &&& sc.modifiers.shift <==> exists|i: int|
                0 <= i < parts.len() && trim(#[trigger] parts[i]).len() > 0 && (lowercase(trim(parts[i])) == seq!['s', 'h', 'i', 'f', 't'])
            &&& sc.modifiers.alt <==> exists|i: int|
                0 <= i < parts.len() && trim(#[trigger] parts[i]).len() > 0 && (lowercase(trim(parts[i])) == seq!['a', 'l', 't']
                    || lowercase(trim(parts[i])) == seq!['o', 'p', 't', 'i', 'o', 'n'])
            &&& sc.modifiers.meta <==> exists|i: int|
                0 <= i < parts.len() && trim(#[trigger] parts[i]).len() > 0 && (lowercase(trim(parts[i])) == seq!['m', 'e', 't', 'a']
                    || lowercase(trim(parts[i])) == seq!['w', 'i', 'n']
                    || lowercase(trim(parts[i])) == seq!['c', 'o', 'm', 'm', 'a', 'n', 'd']
                    || lowercase(trim(parts[i])) == seq!['s', 'u', 'p', 'e', 'r'])
        },
        ascii_shortcut_of(lang, s) matches Ok(sc) ==> {
            let parts = segments_from(s, 0, '+');
            &&& sc.modifiers.control <==> exists|i: int|
                0 <= i < parts.len() && trim(#[trigger] parts[i]).len() > 0 && (ascii_lowered(trim(parts[i])) == seq!['c', 't', 'r', 'l']
                    || ascii_lowered(trim(parts[i])) == seq!['c', 'o', 'n', 't', 'r', 'o', 'l'])
            &&& sc.modifiers.shift <==> exists|i: int|
                0 <= i < parts.len() && trim(#[trigger] parts[i]).len() > 0 && (ascii_lowered(trim(parts[i])) == seq!['s', 'h', 'i', 'f', 't'])
            &&& sc.modifiers.alt <==> exists|i: int|
                0 <= i < parts.len() && trim(#[trigger] parts[i]).len() > 0 && (ascii_lowered(trim(parts[i])) == seq!['a', 'l', 't']
                    || ascii_lowered(trim(parts[i])) == seq!['o', 'p', 't', 'i', 'o', 'n'])
            &&& sc.modifiers.meta <==> exists|i: int|
                0 <= i < parts.len() && trim(#[trigger] parts[i]).len() > 0 && (ascii_lowered(trim(parts[i])) == seq!['m', 'e', 't', 'a']
                    || ascii_lowered(trim(parts[i])) == seq!['w', 'i', 'n']
                    || ascii_lowered(trim(parts[i])) == seq!['c', 'o', 'm', 'm', 'a', 'n', 'd']
                    || ascii_lowered(trim(parts[i])) == seq!['s', 'u', 'p', 'e', 'r'])
        },
{
    lemma_modifier_flags_follow_parts(
        |p: Seq<char>| lowercase(p),
        |p: Seq<char>| uppercase(p),
        lang,
        s,
        segments_from(s, 0, '+'),
        Modifiers::none(),
        None,
    );
    lemma_modifier_flags_follow_parts(
        |p: Seq<char>| ascii_lowered(p),
        |p: Seq<char>| ascii_uppered(p),
        lang,
        s,
        segments_from(s, 0, '+'),
        Modifiers::none(),
        None,
    );
}

/// The modifier a lowercased part names.
pub fn modifier_of(lower: &str) -> (r: Option<Modifier>)
    ensures
        r == modifier_named(lower@),
{
    if str_eq(lower, "ctrl") || str_eq(lower, "control") {
        Some(Modifier::Control)
    } else if str_eq(lower, "shift") {
        Some(Modifier::Shift)
    } else if str_eq(lower, "alt") || str_eq(lower, "option") {
        Some(Modifier::Alt)
    } else if str_eq(lower, "meta") || str_eq(lower, "win") || str_eq(lower, "command") || str_eq(
        lower,
        "super",
    ) {
        Some(Modifier::Meta)
    } else {
        None
    }
}

fn function_key_of(v: &Vec<char>) -> (r: Option<u8>)
    requires
        v.len() >= 2,
    ensures
        r == function_key_number(v@.drop_first()),
{
    let ghost rest = v@.drop_first();
    proof {
        reveal_with_fuel(decimal_value, 3);
    }
    if v.len() > 3 {
        return None;
    }
    let d1 = v[1] as u32;
    assert(rest[0] == v@[1]);
    if !(0x31 <= d1 && d1 <= 0x39) {
        if d1 == 0x30 {
            assert(function_key_number(rest) is None);
        } else {
            assert(!is_ascii_digit(rest[0]));
        }
        return None;
    }
    let n1: u32 = d1 - 0x30;
    if v.len() == 2 {
        assert(rest.drop_last() =~= Seq::<char>::empty());
        assert(rest.last() == v@[1]);
        assert(decimal_value(rest) == n1);
        assert(all_ascii_digits(rest));
        return Some(n1 as u8);
    }
    let d2 = v[2] as u32;
    assert(rest[1] == v@[2]);
    if !(0x30 <= d2 && d2 <= 0x39) {
        assert(!is_ascii_digit(rest[1]));
        return None;
    }
    assert(all_ascii_digits(rest));
    let n = n1 * 10 + (d2 - 0x30);
    assert(rest.drop_last().drop_last() =~= Seq::<char>::empty());
    assert(rest.drop_last().last() == v@[1]);
    assert(rest.last() == v@[2]);
    assert(decimal_value(rest) == n);
    if n <= 24 {
        Some(n as u8)
    } else {
        None
    }
}

/// The key an uppercased part names.
pub fn key_code_of(upper: &str) -> (r: Option<KeyCode>)
    ensures
        r == key_named(upper@),
{
    let v = chars_of(upper);
    if v.len() == 1 {
        let c = v[0];
        let code = c as u32;
        if 0x41 <= code && code <= 0x5A {
            return Some(KeyCode::Letter(c));
        }
        if 0x30 <= code && code <= 0x39 {
            return Some(KeyCode::Digit((code - 0x30) as u8));
        }
    }
    if v.len() >= 2 && v[0] == 'F' {
        match function_key_of(&v) {
            Some(n) => {
                return Some(KeyCode::Function(n));
            },
            None => {},
        }
    }
    if str_eq(upper, "SPACE") {
        Some(KeyCode::Space)
    } else if str_eq(upper, "TAB") {
        Some(KeyCode::Tab)
    } else if str_eq(upper, "ENTER") || str_eq(upper, "RETURN") {
        Some(KeyCode::Enter)
    } else if str_eq(upper, "ESCAPE") || str_eq(upper, "ESC") {
        Some(KeyCode::Escape)
    } else if str_eq(upper, "BACKSPACE") {
        Some(KeyCode::Backspace)
    } else if str_eq(upper, "DELETE") || str_eq(upper, "DEL") {
        Some(KeyCode::Delete)
    } else if str_eq(upper, "INSERT") || str_eq(upper, "INS") {
        Some(KeyCode::Insert)
    } else if str_eq(upper, "HOME") {
        Some(KeyCode::Home)
    } else if str_eq(upper, "END") {
        Some(KeyCode::End)
    } else if str_eq(upper, "PAGEUP") {
        Some(KeyCode::PageUp)
    } else if str_eq(upper, "PAGEDOWN") {
        Some(KeyCode::PageDown)
    } else if str_eq(upper, "UP") || str_eq(upper, "ARROWUP") {
        Some(KeyCode::ArrowUp)
    } else if str_eq(upper, "DOWN") || str_eq(upper, "ARROWDOWN") {
        Some(KeyCode::ArrowDown)
    } else if str_eq(upper, "LEFT") || str_eq(upper, "ARROWLEFT") {
        Some(KeyCode::ArrowLeft)
    } else if str_eq(upper, "RIGHT") || str_eq(upper, "ARROWRIGHT") {
        Some(KeyCode::ArrowRight)
    } else {
        None
    }
}

fn add_modifier(mods: Modifiers, m: Modifier) -> (r: Modifiers)
    ensures
        r == mods.with(m),
{
    match m {
        Modifier::Control => Modifiers { control: true, ..mods },
        Modifier::Shift => Modifiers { shift: true, ..mods },
        Modifier::Alt => Modifiers { alt: true, ..mods },
        Modifier::Meta => Modifiers { meta: true, ..mods },
    }
}

/// Parses a shortcut such as "Ctrl+Shift+V". Parts are separated by '+',
/// trimmed, and empty parts are ignored; modifier names are matched without
/// regard to case (ctrl/control, shift, alt/option, meta/win/command/super),
/// the one remaining part is the key. The error is the message for the
/// user, in `lang`.
pub fn parse_shortcut(lang: &str, s: &str) -> (r: Result<Shortcut, String>)
    ensures
        match (r, shortcut_of(lang@, s@)) {
            (Ok(a), Ok(b)) => a == b,
            (Err(a), Err(b)) => a@ == b,
            _ => false,
        },
        all_ascii(s@) ==> match (r, ascii_shortcut_of(lang@, s@)) {
            (Ok(a), Ok(b)) => a == b,
            (Err(a), Err(b)) => a@ == b,
            _ => false,
        },
{
    let v = chars_of(s);
    let ghost all = segments_from(v@, 0, '+');
    let mut mods = Modifiers { control: false, shift: false, alt: false, meta: false };
    let mut key: Option<KeyCode> = None;
    let mut p: usize = 0;
    loop
        invariant_except_break
            p <= v.len(),
            v@ == s@,
            all == segments_from(v@, 0, '+'),
            shortcut_fold(lang@, s@, all, Modifiers::none(), None) == shortcut_fold(
                lang@,
                s@,
                segments_from(v@, p as int, '+'),
                mods,
                key,
            ),
            all_ascii(s@) ==> ascii_shortcut_fold(lang@, s@, all, Modifiers::none(), None)
                == ascii_shortcut_fold(lang@, s@, segments_from(v@, p as int, '+'), mods, key),
        ensures
            shortcut_fold(lang@, s@, all, Modifiers::none(), None) == Ok::<
                (Modifiers, Option<KeyCode>),
                Seq<char>,
            >((mods, key)),
            all_ascii(s@) ==> ascii_shortcut_fold(lang@, s@, all, Modifiers::none(), None) == Ok::<
                (Modifiers, Option<KeyCode>),
                Seq<char>,
            >((mods, key)),
        decreases v.len() - p,
    {
        let e = find_char_from(&v, p, '+');
        let ghost rest = segments_from(v@, p as int, '+');
        let piece = subvec(&v, p, e);
        let ghost tail: Seq<Seq<char>> = if e < v.len() {
            segments_from(v@, e + 1, '+')
        } else {
            Seq::empty()
        };
        assert(rest == seq![piece@] + tail);
        assert(rest[0] == piece@);
        assert(rest.drop_first() =~= tail);
        let ghost mods0 = mods;
        let ghost key0 = key;
        let t = trim_chars(&piece);
        proof {
            if all_ascii(s@) {
                assert(all_ascii(piece@)) by {
                    assert forall|k: int| 0 <= k < piece@.len() implies (#[trigger] piece@[k] as u32) < 128 by {
                        assert(piece@[k] == v@[p + k]);
                    }
                }
                lemma_trim_keeps_ascii(piece@);
            }
        }
        if t.len() > 0 {
            let part = string_from_chars(t.as_slice());
            let lower = to_lowercase(part.as_str());
            match modifier_of(lower.as_str()) {
                Some(m) => {
                    mods = add_modifier(mods, m);
                },
                None => {
                    if key.is_some() {
                        return Err(shortcut_multi_keys(lang, s));
                    }
                    let upper = to_uppercase(part.as_str());
                    match key_code_of(upper.as_str()) {
                        Some(k) => {
                            key = Some(k);
                        },
                        None => {
                            return Err(shortcut_unknown_key(lang, part.as_str()));
                        },
                    }
                },
            }
        }
        assert(shortcut_fold(lang@, s@, rest, mods0, key0) == shortcut_fold(lang@, s@, tail, mods, key));
        assert(all_ascii(s@) ==> ascii_shortcut_fold(lang@, s@, rest, mods0, key0) == ascii_shortcut_fold(
            lang@,
            s@,
            tail,
            mods,
            key,
        ));
        if e < v.len() {
            p = e + 1;
        } else {
            assert(tail.len() == 0);
            break;
        }
    }
    match key {
        None => Err(shortcut_no_key(lang, s)),
        Some(k) => {
            if !mods.control && !mods.shift && !mods.alt && !mods.meta {
                Err(shortcut_no_modifier(lang, s))
            } else {
                Ok(Shortcut { modifiers: mods, key: k })
            }
        },
    }
}

} // verus!
