//! The configuration: key bindings, styles and settings, with their defaults.

use vstd::prelude::*;
use crate::keys::{KeyCode, KeyEvent, KeyModifiers, no_modifiers};
use crate::path::{copy_strings, main_separator, string_eq, PathBuf};
use crate::style::{default_style, has_text, text_at, Color, Modifier, ParseError, Style};
use crate::file_cmd::glob_parses;
use crate::text::{str_chars, string_from_chars};

verus! {

/// A key binding: a key and the modifiers held with it.
#[derive(Debug, PartialEq, Eq, Hash, Clone, Copy, Structural)]
pub struct Key {
    pub code: KeyCode,
    pub mods: KeyModifiers,
}

/// The character `c` on its own.
pub open spec fn normal_key(c: char) -> Key {
    Key { code: KeyCode::Char(c), mods: no_modifiers() }
}

/// The character `c` with control.
pub open spec fn ctrl_key(c: char) -> Key {
    Key { code: KeyCode::Char(c), mods: KeyModifiers { control: true, ..no_modifiers() } }
}

/// The key `code` on its own.
pub open spec fn code_key(code: KeyCode) -> Key {
    Key { code, mods: no_modifiers() }
}

/// Whether `char::is_uppercase` holds of `c` (the Unicode `Uppercase` property).
pub uninterp spec fn uppercase_char(c: char) -> bool;

/// `char::is_uppercase`: whether `c` has the Unicode `Uppercase` property; of the ASCII
/// characters exactly `A` to `Z` have it.
#[verifier::external_body]
fn char_is_uppercase(c: char) -> (r: bool)
    ensures
        r == uppercase_char(c),
        c <= '\x7f' ==> (r <==> ('A' <= c && c <= 'Z')),
{
    c.is_uppercase()
}

/// A modifier name at `i`: `ctrl` or `alt`.
pub open spec fn mod_at(s: Seq<char>, i: int) -> bool {
    has_text(s, i, "ctrl"@) || has_text(s, i, "alt"@)
}

/// The length of the modifier name at `i`.
pub open spec fn mod_len(s: Seq<char>, i: int) -> int {
    if has_text(s, i, "ctrl"@) {
        "ctrl"@.len() as int
    } else if has_text(s, i, "alt"@) {
        "alt"@.len() as int
    } else {
        0
    }
}

/// The modifiers after the one ending at `i`, each after a `-`: where they end, and
/// whether control and alt are among them.
pub open spec fn mods_from(s: Seq<char>, i: int) -> (int, bool, bool)
    decreases s.len() - i,
{
    if 0 <= i < s.len() && s[i] == '-' && mod_at(s, i + 1) {
        let r = mods_from(s, i + 1 + mod_len(s, i + 1));
        (r.0, r.1 || has_text(s, i + 1, "ctrl"@), r.2 || (!has_text(s, i + 1, "ctrl"@) && has_text(s, i + 1, "alt"@)))
    } else {
        (i, false, false)
    }
}

/// The modifiers at the start of `s`, names joined by `-`, then an optional `-`: where the
/// key's own name starts, and whether control and alt are held.
pub open spec fn mods_part(s: Seq<char>) -> (int, bool, bool) {
    let r = if mod_at(s, 0) {
        let q = mods_from(s, mod_len(s, 0));
        (q.0, q.1 || has_text(s, 0, "ctrl"@), q.2 || (!has_text(s, 0, "ctrl"@) && has_text(s, 0, "alt"@)))
    } else {
        (0, false, false)
    };
    if 0 <= r.0 < s.len() && s[r.0] == '-' {
        (r.0 + 1, r.1, r.2)
    } else {
        r
    }
}

/// Whether one of the named keys starts at `i`.
pub open spec fn named_key_at(s: Seq<char>, i: int) -> bool {
    has_text(s, i, "down"@) || has_text(s, i, "up"@) || has_text(s, i, "left"@) || has_text(s, i, "right"@)
        || has_text(s, i, "enter"@) || has_text(s, i, "backspace"@) || has_text(s, i, "tab"@)
        || has_text(s, i, "backtab"@)
}

/// The key named at `i` (the first name that fits, in the order below), else the
/// character there; what follows is not read.
pub open spec fn code_at(s: Seq<char>, i: int) -> Option<KeyCode> {
    if has_text(s, i, "down"@) {
        Some(KeyCode::Down)
    } else if has_text(s, i, "up"@) {
        Some(KeyCode::Up)
    } else if has_text(s, i, "left"@) {
        Some(KeyCode::Left)
    } else if has_text(s, i, "right"@) {
        Some(KeyCode::Right)
    } else if has_text(s, i, "enter"@) {
        Some(KeyCode::Enter)
    } else if has_text(s, i, "backspace"@) {
        Some(KeyCode::Backspace)
    } else if has_text(s, i, "tab"@) {
        Some(KeyCode::Tab)
    } else if has_text(s, i, "backtab"@) {
        Some(KeyCode::BackTab)
    } else if 0 <= i < s.len() {
        Some(KeyCode::Char(s[i]))
    } else {
        None
    }
}

/// Reading `s` as a key meets a character outside ASCII where a key's character is read.
pub open spec fn key_text_unsupported(s: Seq<char>) -> bool {
    let i = mods_part(s).0;
    !named_key_at(s, i) && 0 <= i < s.len() && s[i] > '\x7f'
}

/// The key that `s` writes: modifiers (see `mods_part`), then the key (see `code_at`).
pub open spec fn parse_key(s: Seq<char>) -> Option<Key> {
    let (i, ctrl, alt) = mods_part(s);
    match code_at(s, i) {
        None => None,
        Some(code) => Some(Key { code, mods: KeyModifiers { control: ctrl, alt, ..no_modifiers() } }),
    }
}

/// Whether a key can be written out: a character or one of the named keys.
pub open spec fn printable(code: KeyCode) -> bool {
    match code {
        KeyCode::Char(_) | KeyCode::Up | KeyCode::Down | KeyCode::Right | KeyCode::Left | KeyCode::Enter
        | KeyCode::Backspace | KeyCode::Tab | KeyCode::BackTab => true,
        _ => false,
    }
}

/// How a key is written: `ctrl-` when control is held, `alt-` when alt is, then the key's
/// character or name.
pub open spec fn key_text(k: Key) -> Seq<char> {
    (if k.mods.control {
        "ctrl-"@
    } else {
        seq![]
    }) + (if k.mods.alt {
        "alt-"@
    } else {
        seq![]
    }) + match k.code {
        KeyCode::Char(c) => seq![c],
        KeyCode::Up => "up"@,
        KeyCode::Down => "down"@,
        KeyCode::Right => "right"@,
        KeyCode::Left => "left"@,
        KeyCode::Enter => "enter"@,
        KeyCode::Backspace => "backspace"@,
        KeyCode::Tab => "tab"@,
        _ => "backtab"@,
    }
}

/// The modifiers a key event must carry to be the key `k`: those of `k`, and shift for an
/// uppercase character.
pub open spec fn expected_mods(k: Key) -> KeyModifiers {
    match k.code {
        KeyCode::Char(c) => if uppercase_char(c) {
            KeyModifiers { shift: true, ..k.mods }
        } else {
            k.mods
        },
        _ => k.mods,
    }
}

/// A key that is written so that it reads back: a printable key with no modifier but
/// control and alt, an ASCII character, and not `-` on its own.
pub open spec fn writable_key(k: Key) -> bool {
    &&& printable(k.code)
    &&& !k.mods.shift && !k.mods.super_key && !k.mods.hyper && !k.mods.meta
    &&& k.code matches KeyCode::Char(c) ==> c <= '\x7f' && (c != '-' || k.mods.control || k.mods.alt)
}

/// The name of a printable key.
pub open spec fn code_text(code: KeyCode) -> Seq<char> {
    key_text(Key { code, mods: no_modifiers() })
}

proof fn lemma_has_text_shift(pre: Seq<char>, s: Seq<char>, t: Seq<char>, i: int)
    requires
        0 <= i,
    ensures
        has_text(pre + s, pre.len() + i, t) == has_text(s, i, t),
{
    if i + t.len() <= s.len() {
        assert((pre + s).subrange(pre.len() + i, pre.len() + i + t.len()) =~= s.subrange(i, i + t.len()));
    }
}

proof fn lemma_no_text(s: Seq<char>, i: int, t: Seq<char>, k: int)
    requires
        0 <= i,
        0 <= k < t.len(),
        i + t.len() <= s.len() ==> s[i + k] != t[k],
    ensures
        !has_text(s, i, t),
{
    if has_text(s, i, t) {
        assert(s.subrange(i, i + t.len())[k] == s[i + k]);
    }
}

proof fn lemma_is_text(s: Seq<char>, t: Seq<char>)
    requires
        s == t,
    ensures
        has_text(s, 0, t),
{
    assert(s.subrange(0, t.len() as int) =~= t);
}

proof fn lemma_char_code(c: char)
    ensures
        code_at(seq![c], 0) == Some(KeyCode::Char(c)),
        code_text(KeyCode::Char(c)) == seq![c],
        code_at(code_text(KeyCode::Char(c)), 0) == Some(KeyCode::Char(c)),
        !mod_at(code_text(KeyCode::Char(c)), 0),
        !named_key_at(code_text(KeyCode::Char(c)), 0),
{
    reveal_strlit("ctrl");
    reveal_strlit("alt");
    reveal_strlit("up");
    reveal_strlit("down");
    reveal_strlit("left");
    reveal_strlit("right");
    reveal_strlit("enter");
    reveal_strlit("backspace");
    reveal_strlit("tab");
    reveal_strlit("backtab");
    assert(code_text(KeyCode::Char(c)) =~= seq![c]);
}

#[verifier::rlimit(40)]
proof fn lemma_named_code(code: KeyCode)
    requires
        printable(code),
        !(code is Char),
    ensures
        code_at(code_text(code), 0) == Some(code),
        !mod_at(code_text(code), 0),
        code_text(code).len() > 0,
        code_text(code)[0] != '-' || code == KeyCode::Char('-'),
        !named_key_at(code_text(code), 0) ==> code_text(code).len() == 1 && code is Char,
{
    reveal_strlit("ctrl");
    reveal_strlit("alt");
    reveal_strlit("up");
    reveal_strlit("down");
    reveal_strlit("left");
    reveal_strlit("right");
    reveal_strlit("enter");
    reveal_strlit("backspace");
    reveal_strlit("tab");
    reveal_strlit("backtab");
    let t = code_text(code);
    assert(t =~= match code {
        KeyCode::Char(c) => seq![c],
        KeyCode::Up => "up"@,
        KeyCode::Down => "down"@,
        KeyCode::Right => "right"@,
        KeyCode::Left => "left"@,
        KeyCode::Enter => "enter"@,
        KeyCode::Backspace => "backspace"@,
        KeyCode::Tab => "tab"@,
        _ => "backtab"@,
    });
    match code {
        KeyCode::Up => {
            lemma_is_text(t, "up"@);
            assert(t.len() == 2);
            assert(!has_text(t, 0, "down"@));
            assert(code_at(t, 0) == Some(KeyCode::Up));
            assert(code_at(code_text(code), 0) == Some(code));
            assert(!mod_at(code_text(code), 0));
            assert(code_text(code)[0] != '-');
            assert(named_key_at(code_text(code), 0));
        },
        KeyCode::Down => {
            lemma_is_text(t, "down"@);
            lemma_no_text(t, 0, "ctrl"@, 0);
            lemma_no_text(t, 0, "alt"@, 0);
            assert(code_at(code_text(code), 0) == Some(code));
        },
        KeyCode::Left => {
            lemma_no_text(t, 0, "down"@, 0);
            lemma_is_text(t, "left"@);
            lemma_no_text(t, 0, "ctrl"@, 0);
            lemma_no_text(t, 0, "alt"@, 0);
            assert(code_at(code_text(code), 0) == Some(code));
        },
        KeyCode::Right => {
            lemma_no_text(t, 0, "down"@, 0);
            lemma_no_text(t, 0, "left"@, 0);
            lemma_is_text(t, "right"@);
            lemma_no_text(t, 0, "ctrl"@, 0);
            lemma_no_text(t, 0, "alt"@, 0);
            assert(code_at(code_text(code), 0) == Some(code));
        },
        KeyCode::Enter => {
            lemma_no_text(t, 0, "down"@, 0);
            lemma_no_text(t, 0, "left"@, 0);
            lemma_no_text(t, 0, "right"@, 0);
            lemma_is_text(t, "enter"@);
            lemma_no_text(t, 0, "ctrl"@, 0);
            lemma_no_text(t, 0, "alt"@, 0);
            assert(code_at(code_text(code), 0) == Some(code));
        },
        KeyCode::Backspace => {
            lemma_no_text(t, 0, "down"@, 0);
            lemma_no_text(t, 0, "up"@, 0);
            lemma_no_text(t, 0, "left"@, 0);
            lemma_no_text(t, 0, "right"@, 0);
            lemma_no_text(t, 0, "enter"@, 0);
            lemma_is_text(t, "backspace"@);
            lemma_no_text(t, 0, "ctrl"@, 0);
            lemma_no_text(t, 0, "alt"@, 0);
            assert(code_at(code_text(code), 0) == Some(code));
        },
        KeyCode::Tab => {
            lemma_no_text(t, 0, "up"@, 0);
            lemma_is_text(t, "tab"@);
            lemma_no_text(t, 0, "alt"@, 0);
            assert(code_at(code_text(code), 0) == Some(code));
        },
        _ => {
            lemma_no_text(t, 0, "down"@, 0);
            lemma_no_text(t, 0, "up"@, 0);
            lemma_no_text(t, 0, "left"@, 0);
            lemma_no_text(t, 0, "right"@, 0);
            lemma_no_text(t, 0, "enter"@, 0);
            lemma_no_text(t, 0, "tab"@, 0);
            lemma_is_text(t, "backtab"@);
            lemma_no_text(t, 0, "ctrl"@, 0);
            lemma_no_text(t, 0, "alt"@, 0);
            assert(code_at(code_text(code), 0) == Some(code));
        },
    }
}

proof fn lemma_code_at_shift(pre: Seq<char>, name: Seq<char>)
    ensures
        code_at(pre + name, pre.len() as int) == code_at(name, 0),
        named_key_at(pre + name, pre.len() as int) == named_key_at(name, 0),
        mod_at(pre + name, pre.len() as int) == mod_at(name, 0),
{
    lemma_has_text_shift(pre, name, "down"@, 0);
    lemma_has_text_shift(pre, name, "up"@, 0);
    lemma_has_text_shift(pre, name, "left"@, 0);
    lemma_has_text_shift(pre, name, "right"@, 0);
    lemma_has_text_shift(pre, name, "enter"@, 0);
    lemma_has_text_shift(pre, name, "backspace"@, 0);
    lemma_has_text_shift(pre, name, "tab"@, 0);
    lemma_has_text_shift(pre, name, "backtab"@, 0);
    lemma_has_text_shift(pre, name, "ctrl"@, 0);
    lemma_has_text_shift(pre, name, "alt"@, 0);
    if name.len() > 0 {
        assert((pre + name)[pre.len() as int] == name[0]);
    }
}

/// Reading back how a writable key is written gives the key.
#[verifier::rlimit(60)]
pub proof fn lemma_key_round_trip(k: Key)
    requires
        writable_key(k),
    ensures
        !key_text_unsupported(key_text(k)),
        parse_key(key_text(k)) == Some(k),
{
    reveal_strlit("ctrl");
    reveal_strlit("alt");
    reveal_strlit("ctrl-");
    reveal_strlit("alt-");
    let name = code_text(k.code);
    if let KeyCode::Char(c) = k.code {
        lemma_char_code(c);
    } else {
        lemma_named_code(k.code);
    }
    let pre = (if k.mods.control {
        "ctrl-"@
    } else {
        seq![]
    }) + (if k.mods.alt {
        "alt-"@
    } else {
        seq![]
    });
    let s = key_text(k);
    assert(name =~= match k.code {
        KeyCode::Char(c) => seq![c],
        KeyCode::Up => "up"@,
        KeyCode::Down => "down"@,
        KeyCode::Right => "right"@,
        KeyCode::Left => "left"@,
        KeyCode::Enter => "enter"@,
        KeyCode::Backspace => "backspace"@,
        KeyCode::Tab => "tab"@,
        _ => "backtab"@,
    });
    assert(s =~= pre + name);
    lemma_code_at_shift(pre, name);
    let p = pre.len() as int;
    if k.mods.control && k.mods.alt {
        assert(has_text(s, 0, "ctrl"@)) by {
            assert(s.subrange(0, 4) =~= "ctrl"@);
        }
        assert(has_text(s, 5, "alt"@)) by {
            assert(s.subrange(5, 8) =~= "alt"@);
        }
        lemma_no_text(s, 5, "ctrl"@, 0);
        assert(mods_from(s, 8) == (8int, false, false));
        assert(mods_from(s, 4) == (8int, false, true));
        assert(mods_part(s) == (9int, true, true));
    } else if k.mods.control {
        assert(has_text(s, 0, "ctrl"@)) by {
            assert(s.subrange(0, 4) =~= "ctrl"@);
        }
        assert(mods_from(s, 4) == (4int, false, false));
        assert(mods_part(s) == (5int, true, false));
    } else if k.mods.alt {
        lemma_no_text(s, 0, "ctrl"@, 0);
        assert(has_text(s, 0, "alt"@)) by {
            assert(s.subrange(0, 3) =~= "alt"@);
        }
        assert(mods_from(s, 3) == (3int, false, false));
        assert(mods_part(s) == (4int, false, true));
    } else {
        assert(pre =~= Seq::<char>::empty());
        assert(!mod_at(s, 0));
        assert(s[0] == name[0]);
        assert(mods_part(s) == (0int, false, false));
    }
    assert(mods_part(s).0 == p);
    assert(k.mods == KeyModifiers { control: k.mods.control, alt: k.mods.alt, ..no_modifiers() });
}

/// Control and alt held as given, no other modifier.
pub open spec fn held(control: bool, alt: bool) -> KeyModifiers {
    KeyModifiers { control, alt, ..no_modifiers() }
}

/// How held modifiers are written before a key: `ctrl-` for control, then `alt-` for alt.
pub open spec fn mods_text(control: bool, alt: bool) -> Seq<char> {
    (if control {
        "ctrl-"@
    } else {
        seq![]
    }) + (if alt {
        "alt-"@
    } else {
        seq![]
    })
}

/// A printable key is written as its name after the held modifiers; a writable one reads
/// back from that text.
proof fn lemma_named_key(code: KeyCode, control: bool, alt: bool)
    requires
        printable(code),
    ensures
        key_text(Key { code, mods: held(control, alt) }) == mods_text(control, alt) + code_text(code),
        writable_key(Key { code, mods: held(control, alt) }) ==> parse_key(mods_text(control, alt) + code_text(code))
            == Some(Key { code, mods: held(control, alt) }),
{
    let k = Key { code, mods: held(control, alt) };
    assert(code_text(code) =~= match code {
        KeyCode::Char(c) => seq![c],
        KeyCode::Up => "up"@,
        KeyCode::Down => "down"@,
        KeyCode::Right => "right"@,
        KeyCode::Left => "left"@,
        KeyCode::Enter => "enter"@,
        KeyCode::Backspace => "backspace"@,
        KeyCode::Tab => "tab"@,
        _ => "backtab"@,
    });
    if writable_key(k) {
        lemma_key_round_trip(k);
    }
}

/// Each named key is written by its own name, after the held modifiers, and that text
/// reads back as the key: `left` is the left arrow, `ctrl-alt-right` the right arrow with
/// control and alt, and so on for up, down, enter, backspace, tab and backtab.
#[verifier::rlimit(40)]
#[verifier::spinoff_prover]
pub proof fn lemma_key_names(control: bool, alt: bool)
    ensures
        key_text(Key { code: KeyCode::Up, mods: held(control, alt) }) == mods_text(control, alt) + "up"@,
        parse_key(mods_text(control, alt) + "up"@) == Some(Key { code: KeyCode::Up, mods: held(control, alt) }),
        parse_key("up"@) == Some(code_key(KeyCode::Up)),
        key_text(Key { code: KeyCode::Down, mods: held(control, alt) }) == mods_text(control, alt) + "down"@,
        parse_key(mods_text(control, alt) + "down"@) == Some(Key { code: KeyCode::Down, mods: held(control, alt) }),
        parse_key("down"@) == Some(code_key(KeyCode::Down)),
        key_text(Key { code: KeyCode::Left, mods: held(control, alt) }) == mods_text(control, alt) + "left"@,
        parse_key(mods_text(control, alt) + "left"@) == Some(Key { code: KeyCode::Left, mods: held(control, alt) }),
        parse_key("left"@) == Some(code_key(KeyCode::Left)),
        key_text(Key { code: KeyCode::Right, mods: held(control, alt) }) == mods_text(control, alt) + "right"@,
        parse_key(mods_text(control, alt) + "right"@) == Some(Key { code: KeyCode::Right, mods: held(control, alt) }),
        parse_key("right"@) == Some(code_key(KeyCode::Right)),
        key_text(Key { code: KeyCode::Enter, mods: held(control, alt) }) == mods_text(control, alt) + "enter"@,
        parse_key(mods_text(control, alt) + "enter"@) == Some(Key { code: KeyCode::Enter, mods: held(control, alt) }),
        parse_key("enter"@) == Some(code_key(KeyCode::Enter)),
        key_text(Key { code: KeyCode::Backspace, mods: held(control, alt) }) == mods_text(control, alt) + "backspace"@,
        parse_key(mods_text(control, alt) + "backspace"@) == Some(Key { code: KeyCode::Backspace, mods: held(control, alt) }),
        parse_key("backspace"@) == Some(code_key(KeyCode::Backspace)),
        key_text(Key { code: KeyCode::Tab, mods: held(control, alt) }) == mods_text(control, alt) + "tab"@,
        parse_key(mods_text(control, alt) + "tab"@) == Some(Key { code: KeyCode::Tab, mods: held(control, alt) }),
        parse_key("tab"@) == Some(code_key(KeyCode::Tab)),
        key_text(Key { code: KeyCode::BackTab, mods: held(control, alt) }) == mods_text(control, alt) + "backtab"@,
        parse_key(mods_text(control, alt) + "backtab"@) == Some(Key { code: KeyCode::BackTab, mods: held(control, alt) }),
        parse_key("backtab"@) == Some(code_key(KeyCode::BackTab)),
{
    reveal_strlit("ctrl-");
    reveal_strlit("alt-");
    lemma_named_key(KeyCode::Up, control, alt);
    lemma_named_key(KeyCode::Up, false, false);
    lemma_named_key(KeyCode::Down, control, alt);
    lemma_named_key(KeyCode::Down, false, false);
    lemma_named_key(KeyCode::Left, control, alt);
    lemma_named_key(KeyCode::Left, false, false);
    lemma_named_key(KeyCode::Right, control, alt);
    lemma_named_key(KeyCode::Right, false, false);
    lemma_named_key(KeyCode::Enter, control, alt);
    lemma_named_key(KeyCode::Enter, false, false);
    lemma_named_key(KeyCode::Backspace, control, alt);
    lemma_named_key(KeyCode::Backspace, false, false);
    lemma_named_key(KeyCode::Tab, control, alt);
    lemma_named_key(KeyCode::Tab, false, false);
    lemma_named_key(KeyCode::BackTab, control, alt);
    lemma_named_key(KeyCode::BackTab, false, false);
    assert(mods_text(false, false) =~= Seq::<char>::empty());
    assert(held(false, false) == no_modifiers());
}

/// A character key other than `-` on its own is written as the character itself, after
/// the held modifiers, and that text reads back as the key.
pub proof fn lemma_char_key_text(c: char, control: bool, alt: bool)
    requires
        c <= '\x7f',
        c != '-' || control || alt,
    ensures
        key_text(Key { code: KeyCode::Char(c), mods: held(control, alt) }) == mods_text(control, alt) + seq![c],
        parse_key(mods_text(control, alt) + seq![c]) == Some(Key { code: KeyCode::Char(c), mods: held(control, alt) }),
{
    lemma_named_key(KeyCode::Char(c), control, alt);
}

fn push_str(out: &mut Vec<char>, t: &str)
    ensures
        final(out)@ == old(out)@ + t@,
{
    let ts = str_chars(t);
    let ghost before = out@;
    let mut i: usize = 0;
    while i < ts.len()
        invariant
            i <= ts@.len(),
            ts@ == t@,
            out@ == before + ts@.take(i as int),
        decreases ts@.len() - i,
    {
        out.push(ts[i]);
        proof {
            assert(out@ =~= before + ts@.take(i + 1));
        }
        i = i + 1;
    }
    proof {
        assert(ts@.take(i as int) =~= ts@);
    }
}

fn mods_from_exec(cs: &Vec<char>, start: usize) -> (r: (usize, bool, bool))
    requires
        start <= cs@.len(),
    ensures
        r.0 as int == mods_from(cs@, start as int).0,
        r.1 == mods_from(cs@, start as int).1,
        r.2 == mods_from(cs@, start as int).2,
        r.0 <= cs@.len(),
{
    let ctrl_len = str_chars("ctrl").len();
    let alt_len = str_chars("alt").len();
    let mut i = start;
    let mut c = false;
    let mut a = false;
    while i < cs.len() && cs[i] == '-' && (text_at(cs, i + 1, "ctrl") || text_at(cs, i + 1, "alt"))
        invariant
            start <= i <= cs@.len(),
            ctrl_len == "ctrl"@.len(),
            alt_len == "alt"@.len(),
            mods_from(cs@, start as int) == (
                mods_from(cs@, i as int).0,
                c || mods_from(cs@, i as int).1,
                a || mods_from(cs@, i as int).2,
            ),
        decreases cs@.len() - i,
    {
        if text_at(cs, i + 1, "ctrl") {
            c = true;
            i = i + 1 + ctrl_len;
        } else {
            a = true;
            i = i + 1 + alt_len;
        }
    }
    (i, c, a)
}

fn code_at_exec(cs: &Vec<char>, i: usize) -> (r: Option<KeyCode>)
    requires
        i <= cs@.len(),
    ensures
        r == code_at(cs@, i as int),
{
    if text_at(cs, i, "down") {
        Some(KeyCode::Down)
    } else if text_at(cs, i, "up") {
        Some(KeyCode::Up)
    } else if text_at(cs, i, "left") {
        Some(KeyCode::Left)
    } else if text_at(cs, i, "right") {
        Some(KeyCode::Right)
    } else if text_at(cs, i, "enter") {
        Some(KeyCode::Enter)
    } else if text_at(cs, i, "backspace") {
        Some(KeyCode::Backspace)
    } else if text_at(cs, i, "tab") {
        Some(KeyCode::Tab)
    } else if text_at(cs, i, "backtab") {
        Some(KeyCode::BackTab)
    } else if i < cs.len() {
        Some(KeyCode::Char(cs[i]))
    } else {
        None
    }
}

fn mods_part_exec(cs: &Vec<char>) -> (r: (usize, bool, bool))
    ensures
        r.0 as int == mods_part(cs@).0,
        r.1 == mods_part(cs@).1,
        r.2 == mods_part(cs@).2,
        r.0 <= cs@.len(),
{
    let ctrl_len = str_chars("ctrl").len();
    let alt_len = str_chars("alt").len();
    let (mut i, mut c, mut a) = (0usize, false, false);
    if text_at(cs, 0, "ctrl") {
        let q = mods_from_exec(cs, ctrl_len);
        i = q.0;
        c = true;
        a = q.2;
    } else if text_at(cs, 0, "alt") {
        let q = mods_from_exec(cs, alt_len);
        i = q.0;
        c = q.1;
        a = true;
    }
    if i < cs.len() && cs[i] == '-' {
        i = i + 1;
    }
    (i, c, a)
}

impl Key {
    /// The character `c` on its own.
    pub fn normal(c: char) -> (r: Key)
        ensures
            r == normal_key(c),
    {
        Key { code: KeyCode::Char(c), mods: KeyModifiers::none() }
    }

    /// The character `c` with control.
    pub fn ctrl(c: char) -> (r: Key)
        ensures
            r == ctrl_key(c),
    {
        Key { code: KeyCode::Char(c), mods: KeyModifiers::ctrl() }
    }

    /// Escape on its own.
    pub fn esc() -> (r: Key)
        ensures
            r == code_key(KeyCode::Esc),
    {
        Key { code: KeyCode::Esc, mods: KeyModifiers::none() }
    }

    /// The key `code` on its own.
    pub fn key_code(code: KeyCode) -> (r: Key)
        ensures
            r == code_key(code),
    {
        Key { code, mods: KeyModifiers::none() }
    }

    /// The key that a key event reports.
    pub fn from_event(ev: &KeyEvent) -> (r: Key)
        ensures
            r == (Key { code: ev.code, mods: ev.modifiers }),
    {
        Key { code: ev.code, mods: ev.modifiers }
    }

    /// Whether the key can be written out (see `printable`).
    pub fn is_printable(&self) -> (r: bool)
        ensures
            r == printable(self.code),
    {
        match self.code {
            KeyCode::Char(_) | KeyCode::Up | KeyCode::Down | KeyCode::Right | KeyCode::Left | KeyCode::Enter
            | KeyCode::Backspace | KeyCode::Tab | KeyCode::BackTab => true,
            _ => false,
        }
    }

    /// Whether reading `s` as a key is supported (see `key_text_unsupported`).
    pub fn text_supported(s: &str) -> (r: bool)
        ensures
            r == !key_text_unsupported(s@),
    {
        let cs = str_chars(s);
        let (i, _, _) = mods_part_exec(&cs);
        let named = text_at(&cs, i, "down") || text_at(&cs, i, "up") || text_at(&cs, i, "left")
            || text_at(&cs, i, "right") || text_at(&cs, i, "enter") || text_at(&cs, i, "backspace")
            || text_at(&cs, i, "tab") || text_at(&cs, i, "backtab");
        !(!named && i < cs.len() && cs[i] > '\x7f')
    }

    /// Reads a key (see `parse_key`); fails when no key is written.
    pub fn parse_key(s: &str) -> (r: Result<Key, ParseError>)
        requires
            !key_text_unsupported(s@),
        ensures
            r matches Ok(k) ==> parse_key(s@) == Some(k),
            r is Err <==> parse_key(s@) is None,
            r matches Err(e) ==> e == ParseError::InvalidKey,
    {
        let cs = str_chars(s);
        let (i, c, a) = mods_part_exec(&cs);
        match code_at_exec(&cs, i) {
            None => Err(ParseError::InvalidKey),
            Some(code) => Ok(Key { code, mods: KeyModifiers { control: c, alt: a, ..KeyModifiers::none() } }),
        }
    }

    /// How the key is written (see `key_text`).
    pub fn to_text(&self) -> (r: String)
        requires
            printable(self.code),
        ensures
            r@ == key_text(*self),
    {
        let mut out: Vec<char> = Vec::new();
        if self.mods.control {
            push_str(&mut out, "ctrl-");
        }
        let ghost after_ctrl = out@;
        if self.mods.alt {
            push_str(&mut out, "alt-");
        }
        let ghost after_alt = out@;
        match self.code {
            KeyCode::Char(c) => out.push(c),
            KeyCode::Up => push_str(&mut out, "up"),
            KeyCode::Down => push_str(&mut out, "down"),
            KeyCode::Right => push_str(&mut out, "right"),
            KeyCode::Left => push_str(&mut out, "left"),
            KeyCode::Enter => push_str(&mut out, "enter"),
            KeyCode::Backspace => push_str(&mut out, "backspace"),
            KeyCode::Tab => push_str(&mut out, "tab"),
            _ => push_str(&mut out, "backtab"),
        }
        proof {
            assert(out@ =~= key_text(*self));
        }
        string_from_chars(out.as_slice())
    }

    /// Whether a key event is this key: the same key, with this key's modifiers, and shift
    /// too for an uppercase character (see `expected_mods`).
    pub fn matches(&self, ev: &KeyEvent) -> (r: bool)
        ensures
            r == (ev.code == self.code && ev.modifiers == expected_mods(*self)),
    {
        let mut mods = self.mods;
        if let KeyCode::Char(c) = self.code {
            if char_is_uppercase(c) {
                mods.shift = true;
            }
        }
        ev.code == self.code && ev.modifiers == mods
    }
}

/// Something a key binding does outside the popups.
#[derive(Debug, Clone, PartialEq, Eq, Hash)]
pub enum Action {
    Quit,
    Help,
    PreviewDown,
    PreviewUp,
    Down,
    Up,
    AllUp,
    AllDown,
    Open,
    OpenMarks,
    FiletreeDownThree,
    FiletreeUpThree,
    FiletreeExecCmd,
    FiletreeDelete,
    FiletreeSearch,
    FiletreeClear,
    FiletreeNewFile,
    FiletreeNewDir,
    FiletreeGitFilter,
    FiletreeDiffMode,
    FiletreeSpecialCommand,
    FiletreeMarkSelected,
    FiletreeCloseUnder,
    FiletreeOpenUnder,
    FiletreeShowDotfiles,
    KillProcesses,
    /// A command of the user's.
    Arbitrary(String),
}

/// The mathematical value of an action.
pub enum ActionView {
    Quit,
    Help,
    PreviewDown,
    PreviewUp,
    Down,
    Up,
    AllUp,
    AllDown,
    Open,
    OpenMarks,
    FiletreeDownThree,
    FiletreeUpThree,
    FiletreeExecCmd,
    FiletreeDelete,
    FiletreeSearch,
    FiletreeClear,
    FiletreeNewFile,
    FiletreeNewDir,
    FiletreeGitFilter,
    FiletreeDiffMode,
    FiletreeSpecialCommand,
    FiletreeMarkSelected,
    FiletreeCloseUnder,
    FiletreeOpenUnder,
    FiletreeShowDotfiles,
    KillProcesses,
    Arbitrary(Seq<char>),
}

impl View for Action {
    type V = ActionView;

    open spec fn view(&self) -> ActionView {
        match self {
            Action::Quit => ActionView::Quit,
            Action::Help => ActionView::Help,
            Action::PreviewDown => ActionView::PreviewDown,
            Action::PreviewUp => ActionView::PreviewUp,
            Action::Down => ActionView::Down,
            Action::Up => ActionView::Up,
            Action::AllUp => ActionView::AllUp,
            Action::AllDown => ActionView::AllDown,
            Action::Open => ActionView::Open,
            Action::OpenMarks => ActionView::OpenMarks,
            Action::FiletreeDownThree => ActionView::FiletreeDownThree,
            Action::FiletreeUpThree => ActionView::FiletreeUpThree,
            Action::FiletreeExecCmd => ActionView::FiletreeExecCmd,
            Action::FiletreeDelete => ActionView::FiletreeDelete,
            Action::FiletreeSearch => ActionView::FiletreeSearch,
            Action::FiletreeClear => ActionView::FiletreeClear,
            Action::FiletreeNewFile => ActionView::FiletreeNewFile,
            Action::FiletreeNewDir => ActionView::FiletreeNewDir,
            Action::FiletreeGitFilter => ActionView::FiletreeGitFilter,
            Action::FiletreeDiffMode => ActionView::FiletreeDiffMode,
            Action::FiletreeSpecialCommand => ActionView::FiletreeSpecialCommand,
            Action::FiletreeMarkSelected => ActionView::FiletreeMarkSelected,
            Action::FiletreeCloseUnder => ActionView::FiletreeCloseUnder,
            Action::FiletreeOpenUnder => ActionView::FiletreeOpenUnder,
            Action::FiletreeShowDotfiles => ActionView::FiletreeShowDotfiles,
            Action::KillProcesses => ActionView::KillProcesses,
            Action::Arbitrary(s) => ActionView::Arbitrary(s@),
        }
    }
}

/// The name of an action in messages: its variant in snake case.
pub open spec fn action_name(a: ActionView) -> Seq<char> {
    match a {
        ActionView::Quit => "quit"@,
        ActionView::Help => "help"@,
        ActionView::PreviewDown => "preview_down"@,
        ActionView::PreviewUp => "preview_up"@,
        ActionView::Down => "down"@,
        ActionView::Up => "up"@,
        ActionView::AllUp => "all_up"@,
        ActionView::AllDown => "all_down"@,
        ActionView::Open => "open"@,
        ActionView::OpenMarks => "open_marks"@,
        ActionView::FiletreeDownThree => "filetree_down_three"@,
        ActionView::FiletreeUpThree => "filetree_up_three"@,
        ActionView::FiletreeExecCmd => "filetree_exec_cmd"@,
        ActionView::FiletreeDelete => "filetree_delete"@,
        ActionView::FiletreeSearch => "filetree_search"@,
        ActionView::FiletreeClear => "filetree_clear"@,
        ActionView::FiletreeNewFile => "filetree_new_file"@,
        ActionView::FiletreeNewDir => "filetree_new_dir"@,
        ActionView::FiletreeGitFilter => "filetree_git_filter"@,
        ActionView::FiletreeDiffMode => "filetree_diff_mode"@,
        ActionView::FiletreeSpecialCommand => "filetree_special_command"@,
        ActionView::FiletreeMarkSelected => "filetree_mark_selected"@,
        ActionView::FiletreeCloseUnder => "filetree_close_under"@,
        ActionView::FiletreeOpenUnder => "filetree_open_under"@,
        ActionView::FiletreeShowDotfiles => "filetree_show_dotfiles"@,
        ActionView::KillProcesses => "kill_processes"@,
        ActionView::Arbitrary(_) => "arbitrary"@,
    }
}

impl Action {
    /// A copy of the action.
    pub fn duplicate(&self) -> (r: Action)
        ensures
            r@ == self@,
    {
        match self {
            Action::Quit => Action::Quit,
            Action::Help => Action::Help,
            Action::PreviewDown => Action::PreviewDown,
            Action::PreviewUp => Action::PreviewUp,
            Action::Down => Action::Down,
            Action::Up => Action::Up,
            Action::AllUp => Action::AllUp,
            Action::AllDown => Action::AllDown,
            Action::Open => Action::Open,
            Action::OpenMarks => Action::OpenMarks,
            Action::FiletreeDownThree => Action::FiletreeDownThree,
            Action::FiletreeUpThree => Action::FiletreeUpThree,
            Action::FiletreeExecCmd => Action::FiletreeExecCmd,
            Action::FiletreeDelete => Action::FiletreeDelete,
            Action::FiletreeSearch => Action::FiletreeSearch,
            Action::FiletreeClear => Action::FiletreeClear,
            Action::FiletreeNewFile => Action::FiletreeNewFile,
            Action::FiletreeNewDir => Action::FiletreeNewDir,
            Action::FiletreeGitFilter => Action::FiletreeGitFilter,
            Action::FiletreeDiffMode => Action::FiletreeDiffMode,
            Action::FiletreeSpecialCommand => Action::FiletreeSpecialCommand,
            Action::FiletreeMarkSelected => Action::FiletreeMarkSelected,
            Action::FiletreeCloseUnder => Action::FiletreeCloseUnder,
            Action::FiletreeOpenUnder => Action::FiletreeOpenUnder,
            Action::FiletreeShowDotfiles => Action::FiletreeShowDotfiles,
            Action::KillProcesses => Action::KillProcesses,
            Action::Arbitrary(s) => Action::Arbitrary(s.clone()),
        }
    }

    /// The name of the action in messages (see `action_name`).
    pub fn name(&self) -> (r: String)
        ensures
            r@ == action_name(self@),
    {
        let s = match self {
            Action::Quit => "quit",
            Action::Help => "help",
            Action::PreviewDown => "preview_down",
            Action::PreviewUp => "preview_up",
            Action::Down => "down",
            Action::Up => "up",
            Action::AllUp => "all_up",
            Action::AllDown => "all_down",
            Action::Open => "open",
            Action::OpenMarks => "open_marks",
            Action::FiletreeDownThree => "filetree_down_three",
            Action::FiletreeUpThree => "filetree_up_three",
            Action::FiletreeExecCmd => "filetree_exec_cmd",
            Action::FiletreeDelete => "filetree_delete",
            Action::FiletreeSearch => "filetree_search",
            Action::FiletreeClear => "filetree_clear",
            Action::FiletreeNewFile => "filetree_new_file",
            Action::FiletreeNewDir => "filetree_new_dir",
            Action::FiletreeGitFilter => "filetree_git_filter",
            Action::FiletreeDiffMode => "filetree_diff_mode",
            Action::FiletreeSpecialCommand => "filetree_special_command",
            Action::FiletreeMarkSelected => "filetree_mark_selected",
            Action::FiletreeCloseUnder => "filetree_close_under",
            Action::FiletreeOpenUnder => "filetree_open_under",
            Action::FiletreeShowDotfiles => "filetree_show_dotfiles",
            Action::KillProcesses => "kill_processes",
            Action::Arbitrary(_) => "arbitrary",
        };
        string_from_chars(str_chars(s).as_slice())
    }
}

/// The keys of `l`, each once, in the order they first appear.
pub open spec fn first_keys(l: Seq<(ActionView, Key)>) -> Seq<Key>
    decreases l.len(),
{
    if l.len() == 0 {
        seq![]
    } else {
        let prev = first_keys(l.drop_last());
        if prev.contains(l.last().1) {
            prev
        } else {
            prev.push(l.last().1)
        }
    }
}

/// The actions bound to `k` in `l`, in order.
pub open spec fn actions_on(l: Seq<(ActionView, Key)>, k: Key) -> Seq<ActionView>
    decreases l.len(),
{
    if l.len() == 0 {
        seq![]
    } else {
        let prev = actions_on(l.drop_last(), k);
        if l.last().1 == k {
            prev.push(l.last().0)
        } else {
            prev
        }
    }
}

/// The conflicts among the keys `ks`: each key bound to more than one action in `l`, with
/// those actions, in the order of `ks`.
pub open spec fn conflicts_among(l: Seq<(ActionView, Key)>, ks: Seq<Key>) -> Seq<(Key, Seq<ActionView>)>
    decreases ks.len(),
{
    if ks.len() == 0 {
        seq![]
    } else {
        let prev = conflicts_among(l, ks.drop_last());
        let k = ks.last();
        if actions_on(l, k).len() > 1 {
            prev.push((k, actions_on(l, k)))
        } else {
            prev
        }
    }
}

/// The conflicts of the bindings `l`: every key bound to more than one action, with those
/// actions in order, the keys in the order they first appear.
pub open spec fn conflicts_of(l: Seq<(ActionView, Key)>) -> Seq<(Key, Seq<ActionView>)> {
    conflicts_among(l, first_keys(l))
}

proof fn lemma_first_keys(l: Seq<(ActionView, Key)>, k: Key)
    ensures
        first_keys(l).contains(k) <==> actions_on(l, k).len() > 0,
        first_keys(l).no_duplicates(),
    decreases l.len(),
{
    if l.len() > 0 {
        lemma_first_keys(l.drop_last(), k);
        lemma_first_keys(l.drop_last(), l.last().1);
        let prev = first_keys(l.drop_last());
        if !prev.contains(l.last().1) {
            assert forall|i: int, j: int| 0 <= i < j < prev.push(l.last().1).len() implies prev.push(
                l.last().1,
            )[i] != prev.push(l.last().1)[j] by {
                if j == prev.len() {
                    assert(prev.contains(prev[i]));
                }
            }
            if k == l.last().1 {
                assert(prev.push(l.last().1)[prev.len() as int] == k);
            } else if prev.push(l.last().1).contains(k) {
                let w = choose|w: int| 0 <= w < prev.push(l.last().1).len() && prev.push(l.last().1)[w] == k;
                assert(prev[w] == k);
            } else if prev.contains(k) {
                let w = choose|w: int| 0 <= w < prev.len() && prev[w] == k;
                assert(prev.push(l.last().1)[w] == k);
            }
        }
    }
}

/// A key binding used by more than one action.
#[derive(Debug, Clone, PartialEq, Eq)]
pub struct KeyConflict {
    on: Key,
    conflictors: Vec<Action>,
}

/// The views of a sequence of actions.
pub open spec fn action_views(s: Seq<Action>) -> Seq<ActionView> {
    s.map_values(|a: Action| a@)
}

impl KeyConflict {
    /// The conflict of `conflictors` on the key `on`.
    pub fn new(on: Key, conflictors: Vec<Action>) -> (r: KeyConflict)
        ensures
            r.spec_on() == on,
            r.spec_conflictors() == action_views(conflictors@),
    {
        KeyConflict { on, conflictors }
    }

    pub closed spec fn spec_on(&self) -> Key {
        self.on
    }

    pub closed spec fn spec_conflictors(&self) -> Seq<ActionView> {
        action_views(self.conflictors@)
    }

    /// The key that more than one action uses.
    pub fn on(&self) -> (r: &Key)
        ensures
            *r == self.spec_on(),
    {
        &self.on
    }

    /// The actions that use the key, in order.
    pub fn conflictors(&self) -> (r: &[Action])
        ensures
            action_views(r@) == self.spec_conflictors(),
    {
        self.conflictors.as_slice()
    }

    /// The message about the conflict: `key conflict on "KEY" with associated actions: `
    /// then each action's name in quotes, separated by `, `.
    pub fn describe(&self) -> (r: String)
        requires
            printable(self.spec_on().code),
        ensures
            r@ == conflict_text(self.spec_on(), self.spec_conflictors()),
    {
        let mut out: Vec<char> = Vec::new();
        push_str(&mut out, "key conflict on \"");
        let k = self.on.to_text();
        push_str(&mut out, k.as_str());
        push_str(&mut out, "\" with associated actions: ");
        let ghost head = out@;
        let mut i: usize = 0;
        while i < self.conflictors.len()
            invariant
                i <= self.conflictors@.len(),
                out@ == head + names_list(action_views(self.conflictors@).take(i as int)),
            decreases self.conflictors@.len() - i,
        {
            let ghost before = out@;
            if i > 0 {
                push_str(&mut out, ", ");
            }
            out.push('"');
            let n = self.conflictors[i].name();
            push_str(&mut out, n.as_str());
            out.push('"');
            proof {
                let s = action_views(self.conflictors@);
                assert(s.take(i + 1).drop_last() =~= s.take(i as int));
                assert(s.take(i + 1).last() == self.conflictors@[i as int]@);
                assert(out@ =~= head + names_list(s.take(i + 1)));
            }
            i = i + 1;
        }
        proof {
            assert(action_views(self.conflictors@).take(i as int) =~= action_views(self.conflictors@));
        }
        string_from_chars(out.as_slice())
    }
}

/// The names of `s`, each in quotes, separated by `, `.
pub open spec fn names_list(s: Seq<ActionView>) -> Seq<char>
    decreases s.len(),
{
    if s.len() == 0 {
        seq![]
    } else {
        names_list(s.drop_last()) + (if s.len() > 1 {
            ", "@
        } else {
            seq![]
        }) + seq!['"'] + action_name(s.last()) + seq!['"']
    }
}

/// The message about a conflict on `on` among `actions`.
pub open spec fn conflict_text(on: Key, actions: Seq<ActionView>) -> Seq<char> {
    "key conflict on \""@ + key_text(on) + "\" with associated actions: "@ + names_list(actions)
}

/// Settings that take in the settings of another value of their kind.
pub trait Merge: Sized {
    fn merge(&mut self, other: Self);
}

/// The default command that previews a file: `type {}` where the path separator is a
/// backslash (Windows), `cat {}` elsewhere.
pub open spec fn default_preview_cmd(sep: char) -> Seq<char> {
    if sep == '\\' {
        "type {}"@
    } else {
        "cat {}"@
    }
}

fn default_preview_cmd_exec(sep: char) -> (r: String)
    ensures
        r@ == default_preview_cmd(sep),
{
    let s = if sep == '\\' {
        "type {}"
    } else {
        "cat {}"
    };
    string_from_chars(str_chars(s).as_slice())
}

fn default_project_roots() -> (r: Vec<String>)
    ensures
        r.deep_view() == seq!["**/.git"@],
{
    let mut r: Vec<String> = Vec::new();
    r.push(string_from_chars(str_chars("**/.git").as_slice()));
    proof {
        assert(r.deep_view() =~= seq!["**/.git"@]);
    }
    r
}

/// The globs that name project roots, each of the `patterns` matched at any depth.
pub open spec fn root_globs(patterns: Seq<Seq<char>>) -> Seq<Seq<char>> {
    patterns.map_values(|p: Seq<char>| "**/"@ + p)
}

/// The globs of the project roots for the configured `patterns` (see `root_globs`).
pub fn project_root_globs(patterns: &Vec<String>) -> (r: Vec<String>)
    ensures
        r.deep_view() == root_globs(patterns.deep_view()),
{
    let mut r: Vec<String> = Vec::new();
    let mut i: usize = 0;
    while i < patterns.len()
        invariant
            i <= patterns@.len(),
            r.deep_view() == root_globs(patterns.deep_view()).take(i as int),
        decreases patterns@.len() - i,
    {
        let mut cs: Vec<char> = Vec::new();
        push_str(&mut cs, "**/");
        push_str(&mut cs, patterns[i].as_str());
        let g = string_from_chars(cs.as_slice());
        let ghost before = r.deep_view();
        r.push(g);
        proof {
            assert(patterns.deep_view()[i as int] == patterns@[i as int]@);
            assert(r.deep_view() =~= before.push(g@));
            assert(r.deep_view() =~= root_globs(patterns.deep_view()).take(i + 1));
        }
        i = i + 1;
    }
    proof {
        assert(root_globs(patterns.deep_view()).take(i as int) =~= root_globs(patterns.deep_view()));
    }
    r
}

#[verifier::external_type_specification]
#[verifier::external_body]
pub struct ExGlobSet(globset::GlobSet);

#[verifier::external_type_specification]
#[verifier::external_body]
pub struct ExGlobSetBuilder(globset::GlobSetBuilder);

/// Whether the set of `globs` matches `path`: the answer of `globset::GlobSet::is_match`,
/// which depends on the globs and the path alone.
pub uninterp spec fn glob_set_matches(globs: Seq<Seq<char>>, path: Seq<char>) -> bool;

/// The glob patterns that a `globset::GlobSetBuilder` holds, in the order they were added.
pub uninterp spec fn builder_globs(b: globset::GlobSetBuilder) -> Seq<Seq<char>>;

/// Whether `globset::GlobSetBuilder::build` succeeds for a builder holding `globs`: it
/// compiles their regexes, which depends on the globs alone.
pub uninterp spec fn glob_set_builds(globs: Seq<Seq<char>>) -> bool;

/// `globset::GlobSetBuilder::new`: a builder with no globs.
#[verifier::external_body]
fn glob_set_builder() -> (r: globset::GlobSetBuilder)
    ensures
        builder_globs(r) == Seq::<Seq<char>>::empty(),
{
    globset::GlobSetBuilder::new()
}

/// `globset::Glob::new` on `pattern`, then `globset::GlobSetBuilder::add` of the glob it
/// parsed: whether the pattern parses is named `glob_parses`; a pattern that parses is
/// added after those already held, and one that does not leaves the builder as it was.
#[verifier::external_body]
fn glob_set_add_pattern(builder: &mut globset::GlobSetBuilder, pattern: &str) -> (r: bool)
    ensures
        r == glob_parses(pattern@),
        builder_globs(*final(builder)) == (if r {
            builder_globs(*old(builder)).push(pattern@)
        } else {
            builder_globs(*old(builder))
        }),
{
    match globset::Glob::new(pattern) {
        Ok(glob) => {
            builder.add(glob);
            true
        },
        Err(_) => false,
    }
}

/// `globset::GlobSetBuilder::build`: the set of the globs the builder holds. It fails only
/// where a glob's regex cannot be compiled (named `glob_set_builds`).
#[verifier::external_body]
fn glob_set_build(builder: &globset::GlobSetBuilder) -> (r: Result<globset::GlobSet, globset::Error>)
    ensures
        r is Ok <==> glob_set_builds(builder_globs(*builder)),
{
    builder.build()
}

/// `globset::GlobSet::is_match` on the set of `list`, which `GlobList::new` built from the
/// globs that `list` keeps, in their order: whether `path` matches one of them (named
/// `glob_set_matches`).
#[verifier::external_body]
fn glob_set_is_match(list: &GlobList, path: &str) -> (r: bool)
    ensures
        r == glob_set_matches(list@, path@),
{
    list.set.is_match(path)
}

/// Why a list of globs was refused.
#[derive(Debug, PartialEq, Eq, Clone, Copy, Structural)]
pub enum GlobListError {
    /// The glob at this position does not parse.
    Pattern(usize),
    /// The globs parse, but their set could not be built.
    Build,
}

/// The globs that mark a project's root, compiled into one set.
#[derive(Debug)]
pub struct GlobList {
    globs: Vec<String>,
    set: globset::GlobSet,
}

impl View for GlobList {
    type V = Seq<Seq<char>>;

    /// The globs the set was built from, in the order they were given.
    closed spec fn view(&self) -> Seq<Seq<char>> {
        self.globs.deep_view()
    }
}

/// The position of the first of `globs` that does not parse, if one does not.
pub open spec fn first_unparsed(globs: Seq<Seq<char>>) -> Option<int> {
    if exists|i: int| 0 <= i < globs.len() && !glob_parses(#[trigger] globs[i]) {
        Some(choose|i: int| 0 <= i < globs.len() && !glob_parses(#[trigger] globs[i])
            && forall|j: int| 0 <= j < i ==> glob_parses(#[trigger] globs[j]))
    } else {
        None
    }
}

/// Whether one of `paths` matches one of `globs`.
pub open spec fn any_matches(globs: Seq<Seq<char>>, paths: Seq<Seq<char>>) -> bool {
    exists|k: int| 0 <= k < paths.len() && glob_set_matches(globs, #[trigger] paths[k])
}

impl GlobList {
    /// Compiles `globs` into one set. Refused with the position of the first glob that does
    /// not parse, if one does not.
    pub fn new(globs: &Vec<String>) -> (r: Result<GlobList, GlobListError>)
        ensures
            r matches Ok(l) ==> l@ == globs.deep_view(),
            r matches Err(GlobListError::Pattern(i)) ==> first_unparsed(globs.deep_view()) == Some(i as int),
            first_unparsed(globs.deep_view()) is Some <==> r matches Err(GlobListError::Pattern(_)),
            first_unparsed(globs.deep_view()) is None ==> (r is Ok <==> glob_set_builds(globs.deep_view())),
            r matches Err(GlobListError::Build) ==> first_unparsed(globs.deep_view()) is None,
    {
        let ghost gv = globs.deep_view();
        let mut builder = glob_set_builder();
        proof {
            assert(builder_globs(builder) =~= gv.take(0));
        }
        let mut i: usize = 0;
        while i < globs.len()
            invariant
                i <= globs@.len(),
                gv == globs.deep_view(),
                builder_globs(builder) == gv.take(i as int),
                forall|j: int| 0 <= j < i ==> glob_parses(#[trigger] gv[j]),
            decreases globs@.len() - i,
        {
            proof {
                assert(gv[i as int] == globs@[i as int]@);
                assert(gv.take(i + 1) =~= gv.take(i as int).push(gv[i as int]));
            }
            match glob_set_add_pattern(&mut builder, globs[i].as_str()) {
                true => {},
                false => {
                    proof {
                        assert(!glob_parses(gv[i as int]));
                        let w = choose|k: int| 0 <= k < gv.len() && !glob_parses(#[trigger] gv[k])
                            && forall|j: int| 0 <= j < k ==> glob_parses(#[trigger] gv[j]);
                        assert(w == i as int) by {
                            if w < i as int {
                                assert(glob_parses(gv[w]));
                            } else if w > i as int {
                                assert(glob_parses(gv[i as int]));
                            }
                        }
                    }
                    return Err(GlobListError::Pattern(i));
                },
            }
            i = i + 1;
        }
        proof {
            assert(!exists|k: int| 0 <= k < gv.len() && !glob_parses(#[trigger] gv[k]));
            assert(gv.take(i as int) =~= gv);
        }
        match glob_set_build(&builder) {
            Ok(set) => Ok(GlobList { globs: copy_strings(globs), set }),
            Err(_) => Err(GlobListError::Build),
        }
    }

    /// Whether `path` matches one of the globs.
    pub fn is_match(&self, path: &str) -> (r: bool)
        ensures
            r == glob_set_matches(self@, path@),
    {
        glob_set_is_match(self, path)
    }

    /// Whether one of `paths` matches one of the globs: how a directory whose entries
    /// are `paths` is told to be a project's root.
    pub fn matches_any(&self, paths: &Vec<String>) -> (r: bool)
        ensures
            r == any_matches(self@, paths.deep_view()),
    {
        let ghost pv = paths.deep_view();
        let mut k: usize = 0;
        while k < paths.len()
            invariant
                k <= paths@.len(),
                pv == paths.deep_view(),
                forall|j: int| 0 <= j < k ==> !glob_set_matches(self@, #[trigger] pv[j]),
            decreases paths@.len() - k,
        {
            proof {
                assert(pv[k as int] == paths@[k as int]@);
            }
            if self.is_match(paths[k].as_str()) {
                return true;
            }
            k = k + 1;
        }
        false
    }
}

/// The special commands by file pattern, as values.
pub open spec fn special_views(s: Seq<(String, Vec<String>)>) -> Seq<(Seq<char>, Seq<Seq<char>>)> {
    s.map_values(|p: (String, Vec<String>)| (p.0@, p.1.deep_view()))
}

/// The position of the first entry for `k`, if there is one.
pub open spec fn special_index(s: Seq<(Seq<char>, Seq<Seq<char>>)>, k: Seq<char>) -> Option<int> {
    if exists|i: int| 0 <= i < s.len() && (#[trigger] s[i]).0 == k {
        Some(
            choose|i: int|
                0 <= i < s.len() && (#[trigger] s[i]).0 == k && forall|j: int| 0 <= j < i ==> (#[trigger] s[j]).0 != k,
        )
    } else {
        None
    }
}

/// `s` with the entry `e` put in: it replaces the commands of an entry for the same
/// pattern, or goes last.
pub open spec fn special_insert(s: Seq<(Seq<char>, Seq<Seq<char>>)>, e: (Seq<char>, Seq<Seq<char>>)) -> Seq<(Seq<char>, Seq<Seq<char>>)> {
    match special_index(s, e.0) {
        Some(i) => s.update(i, e),
        None => s.push(e),
    }
}

/// `a` with every entry of `b` put in, in order.
pub open spec fn special_merge(a: Seq<(Seq<char>, Seq<Seq<char>>)>, b: Seq<(Seq<char>, Seq<Seq<char>>)>) -> Seq<(Seq<char>, Seq<Seq<char>>)>
    decreases b.len(),
{
    if b.len() == 0 {
        a
    } else {
        special_insert(special_merge(a, b.drop_last()), b.last())
    }
}

fn find_special(to: &Vec<(String, Vec<String>)>, k: &String) -> (r: Option<usize>)
    ensures
        r matches Some(j) ==> j < to@.len() && special_index(special_views(to@), k@) == Some(j as int),
        r is None ==> special_index(special_views(to@), k@) is None,
{
    let ghost s = special_views(to@);
    let mut i: usize = 0;
    while i < to.len()
        invariant
            i <= to@.len(),
            s == special_views(to@),
            forall|j: int| 0 <= j < i ==> (#[trigger] s[j]).0 != k@,
        decreases to@.len() - i,
    {
        if string_eq(&to[i].0, k) {
            proof {
                assert(s[i as int].0 == k@);
                let c = choose|c: int|
                    0 <= c < s.len() && (#[trigger] s[c]).0 == k@ && forall|j: int| 0 <= j < c ==> (#[trigger] s[j]).0 != k@;
                if c < i {
                } else if c > i {
                    assert(s[i as int].0 == k@);
                }
                assert(c == i);
            }
            return Some(i);
        }
        i = i + 1;
    }
    None
}

fn merge_specials(to: &mut Vec<(String, Vec<String>)>, from: Vec<(String, Vec<String>)>)
    ensures
        special_views(final(to)@) == special_merge(special_views(old(to)@), special_views(from@)),
{
    let ghost a = special_views(to@);
    let ghost b = special_views(from@);
    let mut i: usize = 0;
    while i < from.len()
        invariant
            i <= from@.len(),
            b == special_views(from@),
            special_views(to@) == special_merge(a, b.take(i as int)),
        decreases from@.len() - i,
    {
        let k = from[i].0.clone();
        let v = crate::path::copy_strings(&from[i].1);
        let ghost before = special_views(to@);
        let ghost e = (k@, v.deep_view());
        proof {
            assert(b.take(i + 1).drop_last() =~= b.take(i as int));
            assert(b[i as int] == e);
            assert(b.take(i + 1).last() == e);
            assert(special_merge(a, b.take(i + 1)) == special_insert(special_merge(a, b.take(i as int)), e));
        }
        match find_special(to, &k) {
            Some(j) => {
                proof {
                    assert(special_index(before, k@) == Some(j as int));
                }
                to.set(j, (k, v));
                proof {
                    assert(special_views(to@) =~= before.update(j as int, e));
                }
            },
            None => {
                to.push((k, v));
                proof {
                    assert(special_views(to@) =~= before.push(e));
                }
            },
        }
        i = i + 1;
    }
    proof {
        assert(b.take(i as int) =~= b);
    }
}

fn pick_key(mine: &mut Key, theirs: Key, base: Key)
    ensures
        *final(mine) == if theirs != base { theirs } else { *old(mine) },
{
    if theirs != base {
        *mine = theirs;
    }
}

fn pick_style(mine: &mut Style, theirs: Style, base: Style)
    ensures
        *final(mine) == if theirs != base { theirs } else { *old(mine) },
{
    if theirs != base {
        *mine = theirs;
    }
}

fn pick_bool(mine: &mut bool, theirs: bool, base: bool)
    ensures
        *final(mine) == if theirs != base { theirs } else { *old(mine) },
{
    if theirs != base {
        *mine = theirs;
    }
}

fn pick_u16(mine: &mut u16, theirs: u16, base: u16)
    ensures
        *final(mine) == if theirs != base { theirs } else { *old(mine) },
{
    if theirs != base {
        *mine = theirs;
    }
}

fn pick_u64(mine: &mut u64, theirs: u64, base: u64)
    ensures
        *final(mine) == if theirs != base { theirs } else { *old(mine) },
{
    if theirs != base {
        *mine = theirs;
    }
}

fn pick_string(mine: &mut String, theirs: String, base: String)
    ensures
        final(mine)@ == if theirs@ != base@ { theirs@ } else { old(mine)@ },
{
    if !string_eq(&theirs, &base) {
        *mine = theirs;
    }
}

fn pick_some<T>(mine: &mut Option<T>, theirs: Option<T>)
    ensures
        *final(mine) == if theirs is Some { theirs } else { *old(mine) },
{
    if theirs.is_some() {
        *mine = theirs;
    }
}

fn pick_nonempty(mine: &mut Vec<(Key, String)>, theirs: Vec<(Key, String)>)
    ensures
        final(mine)@ == if theirs@.len() != 0 { theirs@ } else { old(mine)@ },
{
    if theirs.len() != 0 {
        *mine = theirs;
    }
}

fn extend_strings(mine: &mut Vec<String>, theirs: Vec<String>)
    ensures
        final(mine).deep_view() == old(mine).deep_view() + theirs.deep_view(),
{
    let ghost a = mine.deep_view();
    let ghost b = theirs.deep_view();
    let mut more = theirs;
    mine.append(&mut more);
    proof {
        assert(mine.deep_view() =~= a + b);
    }
}

/// How files are previewed.
#[derive(Debug)]
pub struct PreviewConfig {
    pub preview_cmd: String,
    pub git_pager: Option<String>,
    pub down_key: Key,
    pub up_key: Key,
    pub scroll_amount: u16,
    pub border_color: Style,
    pub scroll_bar_color: Style,
    pub unreached_bar_color: Style,
}

/// The default settings on a platform with path separator `sep`.
pub open spec fn preview_defaults(c: PreviewConfig, sep: char) -> bool {
    &&& c.preview_cmd@ == default_preview_cmd(sep)
    &&& c.git_pager is None
    &&& c.down_key == ctrl_key('d')
    &&& c.up_key == ctrl_key('u')
    &&& c.scroll_amount == 10
    &&& c.border_color == (Style { color: Color::Cyan, ..default_style() })
    &&& c.scroll_bar_color == (Style { color: Color::Magenta, ..default_style() })
    &&& c.unreached_bar_color == (Style { color: Color::Blue, ..default_style() })
}

/// The settings `new` that merging `other` into `old` gives: each merged setting of `other` that
/// differs from its default replaces the one of `old`.
pub open spec fn preview_merged(old: PreviewConfig, other: PreviewConfig, new: PreviewConfig, sep: char) -> bool {
    &&& new.preview_cmd@ == (if other.preview_cmd@ != default_preview_cmd(sep) { other.preview_cmd@ } else { old.preview_cmd@ })
    &&& new.git_pager == (if other.git_pager is Some { other.git_pager } else { old.git_pager })
    &&& new.down_key == (if other.down_key != ctrl_key('d') { other.down_key } else { old.down_key })
    &&& new.up_key == (if other.up_key != ctrl_key('u') { other.up_key } else { old.up_key })
    &&& new.scroll_amount == (if other.scroll_amount != 10 { other.scroll_amount } else { old.scroll_amount })
    &&& new.border_color == (if other.border_color != (Style { color: Color::Cyan, ..default_style() }) { other.border_color } else { old.border_color })
    &&& new.scroll_bar_color == (if other.scroll_bar_color != (Style { color: Color::Magenta, ..default_style() }) { other.scroll_bar_color } else { old.scroll_bar_color })
    &&& new.unreached_bar_color == (if other.unreached_bar_color != (Style { color: Color::Blue, ..default_style() }) { other.unreached_bar_color } else { old.unreached_bar_color })
}

impl PreviewConfig {
    /// The default settings on a platform with path separator `sep`.
    pub fn default_with(sep: char) -> (r: PreviewConfig)
        ensures
            preview_defaults(r, sep),
    {
        PreviewConfig {
            preview_cmd: default_preview_cmd_exec(sep),
            git_pager: None,
            down_key: Key::ctrl('d'),
            up_key: Key::ctrl('u'),
            scroll_amount: 10,
            border_color: Style::color(Color::Cyan),
            scroll_bar_color: Style::color(Color::Magenta),
            unreached_bar_color: Style::color(Color::Blue),
        }
    }

    /// Merges `other` in, judging defaults with the path separator `sep`.
    pub fn merge_with(&mut self, other: PreviewConfig, sep: char)
        ensures
            preview_merged(*old(self), other, *final(self), sep),
    {
        pick_string(&mut self.preview_cmd, other.preview_cmd, default_preview_cmd_exec(sep));
        pick_some(&mut self.git_pager, other.git_pager);
        pick_key(&mut self.down_key, other.down_key, Key::ctrl('d'));
        pick_key(&mut self.up_key, other.up_key, Key::ctrl('u'));
        pick_u16(&mut self.scroll_amount, other.scroll_amount, 10);
        pick_style(&mut self.border_color, other.border_color, Style::color(Color::Cyan));
        pick_style(&mut self.scroll_bar_color, other.scroll_bar_color, Style::color(Color::Magenta));
        pick_style(&mut self.unreached_bar_color, other.unreached_bar_color, Style::color(Color::Blue));
    }
}

impl Default for PreviewConfig {
    fn default() -> (r: PreviewConfig)
        ensures
            preview_defaults(r, '/') || preview_defaults(r, '\\'),
    {
        PreviewConfig::default_with(main_separator())
    }
}

impl Merge for PreviewConfig {
    #[verifier::rlimit(60)]
    fn merge(&mut self, other: PreviewConfig)
        ensures
            preview_merged(*old(self), other, *final(self), '/') || preview_merged(*old(self), other, *final(self), '\\'),
    {
        self.merge_with(other, main_separator());
    }
}

/// How the file tree behaves and looks.
#[derive(Debug)]
pub struct FiletreeConfig {
    pub use_git: bool,
    pub ignore: Vec<String>,
    pub use_gitignore: bool,
    pub refresh_time: u64,
    pub dirs_first: bool,
    pub show_hidden_by_default: bool,
    pub filtered_out_message: Style,
    pub border_color: Style,
    pub added_style: Style,
    pub git_new_style: Style,
    pub git_modified_style: Style,
    pub marks_style: Style,
    pub dir_style: Style,
    pub special_command: Key,
    pub down_three: Key,
    pub up_three: Key,
    pub exec_cmd: Key,
    pub delete: Key,
    pub search: Key,
    pub clear: Key,
    pub new_file: Key,
    pub new_dir: Key,
    pub git_filter: Key,
    pub diff_mode: Key,
    pub open_all: Key,
    pub close_all: Key,
    pub mark_selected: Key,
    pub open_under: Key,
    pub close_under: Key,
    pub show_dotfiles: Key,
}

/// The default settings.
pub open spec fn filetree_defaults(c: FiletreeConfig) -> bool {
    &&& c.use_git == true
    &&& c.ignore@.len() == 0
    &&& c.use_gitignore == true
    &&& c.refresh_time == 1000
    &&& c.dirs_first == false
    &&& c.show_hidden_by_default == false
    &&& c.filtered_out_message == (Style { color: Color::Yellow, ..default_style() })
    &&& c.border_color == (Style { color: Color::Magenta, ..default_style() })
    &&& c.added_style == (Style { color: Color::Green, ..default_style() })
    &&& c.git_new_style == (Style { color: Color::Red, ..default_style() })
    &&& c.git_modified_style == (Style { color: Color::Cyan, ..default_style() })
    &&& c.marks_style == (Style { color: Color::Yellow, ..default_style() })
    &&& c.dir_style == (Style { color: Color::Blue, bg: Color::Reset, mods: Modifier { bold: false, italic: true } })
    &&& c.special_command == normal_key('v')
    &&& c.down_three == ctrl_key('n')
    &&& c.up_three == ctrl_key('p')
    &&& c.exec_cmd == normal_key('e')
    &&& c.delete == normal_key('d')
    &&& c.search == normal_key('/')
    &&& c.clear == normal_key('\\')
    &&& c.new_file == normal_key('n')
    &&& c.new_dir == normal_key('N')
    &&& c.git_filter == normal_key('T')
    &&& c.diff_mode == normal_key('t')
    &&& c.open_all == normal_key('o')
    &&& c.close_all == normal_key('O')
    &&& c.mark_selected == normal_key('m')
    &&& c.open_under == normal_key('l')
    &&& c.close_under == normal_key('h')
    &&& c.show_dotfiles == normal_key('.')
}

/// The settings `new` that merging `other` into `old` gives: each merged setting of `other` that
/// differs from its default replaces the one of `old`, lists are joined.
pub open spec fn filetree_merged(old: FiletreeConfig, other: FiletreeConfig, new: FiletreeConfig) -> bool {
    &&& new.use_git == (if other.use_git != true { other.use_git } else { old.use_git })
    &&& new.ignore.deep_view() == old.ignore.deep_view() + other.ignore.deep_view()
    &&& new.use_gitignore == (if other.use_gitignore != true { other.use_gitignore } else { old.use_gitignore })
    &&& new.refresh_time == (if other.refresh_time != 1000 { other.refresh_time } else { old.refresh_time })
    &&& new.dirs_first == (if other.dirs_first != false { other.dirs_first } else { old.dirs_first })
    &&& new.show_hidden_by_default == (if other.show_hidden_by_default != false { other.show_hidden_by_default } else { old.show_hidden_by_default })
    &&& new.filtered_out_message == (if other.filtered_out_message != (Style { color: Color::Yellow, ..default_style() }) { other.filtered_out_message } else { old.filtered_out_message })
    &&& new.border_color == (if other.border_color != (Style { color: Color::Magenta, ..default_style() }) { other.border_color } else { old.border_color })
    &&& new.added_style == (if other.added_style != (Style { color: Color::Green, ..default_style() }) { other.added_style } else { old.added_style })
    &&& new.git_new_style == (if other.git_new_style != (Style { color: Color::Red, ..default_style() }) { other.git_new_style } else { old.git_new_style })
    &&& new.git_modified_style == (if other.git_modified_style != (Style { color: Color::Cyan, ..default_style() }) { other.git_modified_style } else { old.git_modified_style })
    &&& new.marks_style == (if other.marks_style != (Style { color: Color::Yellow, ..default_style() }) { other.marks_style } else { old.marks_style })
    &&& new.dir_style == (if other.dir_style != (Style { color: Color::Blue, bg: Color::Reset, mods: Modifier { bold: false, italic: true } }) { other.dir_style } else { old.dir_style })
    &&& new.special_command == (if other.special_command != normal_key('v') { other.special_command } else { old.special_command })
    &&& new.down_three == (if other.down_three != ctrl_key('n') { other.down_three } else { old.down_three })
    &&& new.up_three == (if other.up_three != ctrl_key('p') { other.up_three } else { old.up_three })
    &&& new.exec_cmd == (if other.exec_cmd != normal_key('e') { other.exec_cmd } else { old.exec_cmd })
    &&& new.delete == (if other.delete != normal_key('d') { other.delete } else { old.delete })
    &&& new.search == (if other.search != normal_key('/') { other.search } else { old.search })
    &&& new.clear == (if other.clear != normal_key('\\') { other.clear } else { old.clear })
    &&& new.new_file == (if other.new_file != normal_key('n') { other.new_file } else { old.new_file })
    &&& new.new_dir == (if other.new_dir != normal_key('N') { other.new_dir } else { old.new_dir })
    &&& new.git_filter == (if other.git_filter != normal_key('T') { other.git_filter } else { old.git_filter })
    &&& new.diff_mode == (if other.diff_mode != normal_key('t') { other.diff_mode } else { old.diff_mode })
    &&& new.open_all == (if other.open_all != normal_key('o') { other.open_all } else { old.open_all })
    &&& new.close_all == (if other.close_all != normal_key('O') { other.close_all } else { old.close_all })
    &&& new.mark_selected == (if other.mark_selected != normal_key('m') { other.mark_selected } else { old.mark_selected })
    &&& new.open_under == (if other.open_under != normal_key('l') { other.open_under } else { old.open_under })
    &&& new.close_under == (if other.close_under != normal_key('h') { other.close_under } else { old.close_under })
    &&& new.show_dotfiles == (if other.show_dotfiles != normal_key('.') { other.show_dotfiles } else { old.show_dotfiles })
}

impl FiletreeConfig {
}

impl Default for FiletreeConfig {
    fn default() -> (r: FiletreeConfig)
        ensures
            filetree_defaults(r),
    {
    FiletreeConfig {
            use_git: true,
            ignore: Vec::new(),
            use_gitignore: true,
            refresh_time: 1000,
            dirs_first: false,
            show_hidden_by_default: false,
            filtered_out_message: Style::color(Color::Yellow),
            border_color: Style::color(Color::Magenta),
            added_style: Style::color(Color::Green),
            git_new_style: Style::color(Color::Red),
            git_modified_style: Style::color(Color::Cyan),
            marks_style: Style::color(Color::Yellow),
            dir_style: Style { color: Color::Blue, bg: Color::Reset, mods: Modifier { bold: false, italic: true } },
            special_command: Key::normal('v'),
            down_three: Key::ctrl('n'),
            up_three: Key::ctrl('p'),
            exec_cmd: Key::normal('e'),
            delete: Key::normal('d'),
            search: Key::normal('/'),
            clear: Key::normal('\\'),
            new_file: Key::normal('n'),
            new_dir: Key::normal('N'),
            git_filter: Key::normal('T'),
            diff_mode: Key::normal('t'),
            open_all: Key::normal('o'),
            close_all: Key::normal('O'),
            mark_selected: Key::normal('m'),
            open_under: Key::normal('l'),
            close_under: Key::normal('h'),
            show_dotfiles: Key::normal('.'),
        }
    }
}

impl Merge for FiletreeConfig {
    #[verifier::rlimit(60)]
    fn merge(&mut self, other: FiletreeConfig)
        ensures
            filetree_merged(*old(self), other, *final(self)),
    {
        pick_bool(&mut self.use_git, other.use_git, true);
        extend_strings(&mut self.ignore, other.ignore);
        pick_bool(&mut self.use_gitignore, other.use_gitignore, true);
        pick_u64(&mut self.refresh_time, other.refresh_time, 1000);
        pick_bool(&mut self.dirs_first, other.dirs_first, false);
        pick_bool(&mut self.show_hidden_by_default, other.show_hidden_by_default, false);
        pick_style(&mut self.filtered_out_message, other.filtered_out_message, Style::color(Color::Yellow));
        pick_style(&mut self.border_color, other.border_color, Style::color(Color::Magenta));
        pick_style(&mut self.added_style, other.added_style, Style::color(Color::Green));
        pick_style(&mut self.git_new_style, other.git_new_style, Style::color(Color::Red));
        pick_style(&mut self.git_modified_style, other.git_modified_style, Style::color(Color::Cyan));
        pick_style(&mut self.marks_style, other.marks_style, Style::color(Color::Yellow));
        pick_style(&mut self.dir_style, other.dir_style, Style { color: Color::Blue, bg: Color::Reset, mods: Modifier { bold: false, italic: true } });
        pick_key(&mut self.special_command, other.special_command, Key::normal('v'));
        pick_key(&mut self.down_three, other.down_three, Key::ctrl('n'));
        pick_key(&mut self.up_three, other.up_three, Key::ctrl('p'));
        pick_key(&mut self.exec_cmd, other.exec_cmd, Key::normal('e'));
        pick_key(&mut self.delete, other.delete, Key::normal('d'));
        pick_key(&mut self.search, other.search, Key::normal('/'));
        pick_key(&mut self.clear, other.clear, Key::normal('\\'));
        pick_key(&mut self.new_file, other.new_file, Key::normal('n'));
        pick_key(&mut self.new_dir, other.new_dir, Key::normal('N'));
        pick_key(&mut self.git_filter, other.git_filter, Key::normal('T'));
        pick_key(&mut self.diff_mode, other.diff_mode, Key::normal('t'));
        pick_key(&mut self.open_all, other.open_all, Key::normal('o'));
        pick_key(&mut self.close_all, other.close_all, Key::normal('O'));
        pick_key(&mut self.mark_selected, other.mark_selected, Key::normal('m'));
        pick_key(&mut self.open_under, other.open_under, Key::normal('l'));
        pick_key(&mut self.close_under, other.close_under, Key::normal('h'));
        pick_key(&mut self.show_dotfiles, other.show_dotfiles, Key::normal('.'));
    }
}

/// How the log looks.
#[derive(Debug)]
pub struct LogConfig {
    pub error: Style,
    pub debug: Style,
    pub warn: Style,
    pub trace: Style,
    pub info: Style,
    pub border_color: Style,
}

/// The default settings.
pub open spec fn log_defaults(c: LogConfig) -> bool {
    &&& c.error == (Style { color: Color::Red, ..default_style() })
    &&& c.debug == (Style { color: Color::Green, ..default_style() })
    &&& c.warn == (Style { color: Color::Yellow, ..default_style() })
    &&& c.trace == (Style { color: Color::Magenta, ..default_style() })
    &&& c.info == (default_style())
    &&& c.border_color == (Style { color: Color::Blue, ..default_style() })
}

/// The settings `new` that merging `other` into `old` gives: each merged setting of `other` that
/// differs from its default replaces the one of `old`.
pub open spec fn log_merged(old: LogConfig, other: LogConfig, new: LogConfig) -> bool {
    &&& new.error == (if other.error != (Style { color: Color::Red, ..default_style() }) { other.error } else { old.error })
    &&& new.debug == (if other.debug != (Style { color: Color::Green, ..default_style() }) { other.debug } else { old.debug })
    &&& new.warn == (if other.warn != (Style { color: Color::Yellow, ..default_style() }) { other.warn } else { old.warn })
    &&& new.trace == (if other.trace != (Style { color: Color::Magenta, ..default_style() }) { other.trace } else { old.trace })
    &&& new.info == (if other.info != (default_style()) { other.info } else { old.info })
    &&& new.border_color == (if other.border_color != (Style { color: Color::Blue, ..default_style() }) { other.border_color } else { old.border_color })
}

impl LogConfig {
}

impl Default for LogConfig {
    fn default() -> (r: LogConfig)
        ensures
            log_defaults(r),
    {
    LogConfig {
            error: Style::color(Color::Red),
            debug: Style::color(Color::Green),
            warn: Style::color(Color::Yellow),
            trace: Style::color(Color::Magenta),
            info: Style::default(),
            border_color: Style::color(Color::Blue),
        }
    }
}

impl Merge for LogConfig {
    #[verifier::rlimit(60)]
    fn merge(&mut self, other: LogConfig)
        ensures
            log_merged(*old(self), other, *final(self)),
    {
        pick_style(&mut self.error, other.error, Style::color(Color::Red));
        pick_style(&mut self.debug, other.debug, Style::color(Color::Green));
        pick_style(&mut self.warn, other.warn, Style::color(Color::Yellow));
        pick_style(&mut self.trace, other.trace, Style::color(Color::Magenta));
        pick_style(&mut self.info, other.info, Style::default());
        pick_style(&mut self.border_color, other.border_color, Style::color(Color::Blue));
    }
}

/// Where marks are kept and how they are used.
#[derive(Debug)]
pub struct MarksConfig {
    pub marks_dir: Option<PathBuf>,
    pub relative: bool,
    pub open: Key,
    pub delete: Key,
    pub mark_style: Style,
}

/// The default settings.
pub open spec fn marks_defaults(c: MarksConfig) -> bool {
    &&& c.marks_dir is None
    &&& c.relative == true
    &&& c.open == normal_key('M')
    &&& c.delete == normal_key('d')
    &&& c.mark_style == (default_style())
}

/// The settings `new` that merging `other` into `old` gives: each merged setting of `other` that
/// differs from its default replaces the one of `old`.
pub open spec fn marks_merged(old: MarksConfig, other: MarksConfig, new: MarksConfig) -> bool {
    &&& new.marks_dir == (if other.marks_dir is Some { other.marks_dir } else { old.marks_dir })
    &&& new.relative == (if other.relative != true { other.relative } else { old.relative })
    &&& new.open == (if other.open != normal_key('M') { other.open } else { old.open })
    &&& new.delete == (if other.delete != normal_key('d') { other.delete } else { old.delete })
    &&& new.mark_style == (if other.mark_style != (default_style()) { other.mark_style } else { old.mark_style })
}

impl MarksConfig {
}

impl Default for MarksConfig {
    fn default() -> (r: MarksConfig)
        ensures
            marks_defaults(r),
    {
    MarksConfig {
            marks_dir: None,
            relative: true,
            open: Key::normal('M'),
            delete: Key::normal('d'),
            mark_style: Style::default(),
        }
    }
}

impl Merge for MarksConfig {
    #[verifier::rlimit(60)]
    fn merge(&mut self, other: MarksConfig)
        ensures
            marks_merged(*old(self), other, *final(self)),
    {
        pick_some(&mut self.marks_dir, other.marks_dir);
        pick_bool(&mut self.relative, other.relative, true);
        pick_key(&mut self.open, other.open, Key::normal('M'));
        pick_key(&mut self.delete, other.delete, Key::normal('d'));
        pick_style(&mut self.mark_style, other.mark_style, Style::default());
    }
}

/// All the settings.
#[derive(Debug)]
pub struct Config {
    pub quit: Key,
    pub help: Key,
    pub down: Key,
    pub up: Key,
    pub all_down: Key,
    pub all_up: Key,
    pub open: Key,
    pub kill_processes: Key,
    pub special_commands: Vec<(String, Vec<String>)>,
    pub commands: Vec<(Key, String)>,
    pub project_roots: Vec<String>,
    pub selected: Style,
    pub popup_border_style: Style,
    pub help_key_style: Style,
    pub preview: PreviewConfig,
    pub filetree: FiletreeConfig,
    pub log: LogConfig,
    pub marks: MarksConfig,
}

/// The default settings on a platform with path separator `sep`.
pub open spec fn config_defaults(c: Config, sep: char) -> bool {
    &&& c.quit == normal_key('q')
    &&& c.help == normal_key('?')
    &&& c.down == normal_key('j')
    &&& c.up == normal_key('k')
    &&& c.all_down == normal_key('G')
    &&& c.all_up == normal_key('g')
    &&& c.open == code_key(KeyCode::Enter)
    &&& c.kill_processes == ctrl_key('c')
    &&& c.special_commands@.len() == 0
    &&& c.commands@.len() == 0
    &&& c.project_roots.deep_view() == seq!["**/.git"@]
    &&& c.selected == (Style { color: Color::Black, bg: Color::Magenta, ..default_style() })
    &&& c.popup_border_style == (default_style())
    &&& c.help_key_style == (Style { color: Color::LightCyan, bg: Color::Reset, mods: Modifier { bold: true, italic: false } })
    &&& preview_defaults(c.preview, sep)
    &&& filetree_defaults(c.filetree)
    &&& log_defaults(c.log)
    &&& marks_defaults(c.marks)
}

/// The settings `new` that merging `other` into `old` gives: each merged setting of `other`
/// that differs from its default replaces the one of `old`, the special commands of
/// `other` are put in (see `special_merge`), and each group of settings is merged.
pub open spec fn config_merged(old: Config, other: Config, new: Config, sep: char) -> bool {
    &&& new.quit == (if other.quit != normal_key('q') { other.quit } else { old.quit })
    &&& new.help == (if other.help != normal_key('?') { other.help } else { old.help })
    &&& new.down == (if other.down != normal_key('j') { other.down } else { old.down })
    &&& new.up == (if other.up != normal_key('k') { other.up } else { old.up })
    &&& new.all_down == (if other.all_down != normal_key('G') { other.all_down } else { old.all_down })
    &&& new.all_up == (if other.all_up != normal_key('g') { other.all_up } else { old.all_up })
    &&& new.open == (if other.open != code_key(KeyCode::Enter) { other.open } else { old.open })
    &&& new.kill_processes == (if other.kill_processes != ctrl_key('c') { other.kill_processes } else { old.kill_processes })
    &&& new.commands@ == (if other.commands@.len() != 0 { other.commands@ } else { old.commands@ })
    &&& new.project_roots.deep_view() == old.project_roots.deep_view()
    &&& new.selected == (if other.selected != (Style { color: Color::Black, bg: Color::Magenta, ..default_style() }) { other.selected } else { old.selected })
    &&& new.popup_border_style == (if other.popup_border_style != (default_style()) { other.popup_border_style } else { old.popup_border_style })
    &&& new.help_key_style == (if other.help_key_style != (Style { color: Color::LightCyan, bg: Color::Reset, mods: Modifier { bold: true, italic: false } }) { other.help_key_style } else { old.help_key_style })
    &&& special_views(new.special_commands@) == special_merge(special_views(old.special_commands@), special_views(other.special_commands@))
    &&& preview_merged(old.preview, other.preview, new.preview, sep)
    &&& filetree_merged(old.filetree, other.filetree, new.filetree)
    &&& log_merged(old.log, other.log, new.log)
    &&& marks_merged(old.marks, other.marks, new.marks)
}

impl Config {
    /// The default settings on a platform with path separator `sep`.
    pub fn default_with(sep: char) -> (r: Config)
        ensures
            config_defaults(r, sep),
    {
        Config {
            quit: Key::normal('q'),
            help: Key::normal('?'),
            down: Key::normal('j'),
            up: Key::normal('k'),
            all_down: Key::normal('G'),
            all_up: Key::normal('g'),
            open: Key::key_code(KeyCode::Enter),
            kill_processes: Key::ctrl('c'),
            special_commands: Vec::new(),
            commands: Vec::new(),
            project_roots: default_project_roots(),
            selected: Style::bg(Color::Black, Color::Magenta),
            popup_border_style: Style::default(),
            help_key_style: Style { color: Color::LightCyan, bg: Color::Reset, mods: Modifier { bold: true, italic: false } },
            preview: PreviewConfig::default_with(sep),
            filetree: FiletreeConfig::default(),
            log: LogConfig::default(),
            marks: MarksConfig::default(),
        }
    }

    /// Merges `other` in, judging defaults with the path separator `sep`.
    #[verifier::rlimit(60)]
    pub fn merge_with(&mut self, other: Config, sep: char)
        ensures
            config_merged(*old(self), other, *final(self), sep),
    {
        let Config { quit, help, down, up, all_down, all_up, open, kill_processes, special_commands, commands, project_roots, selected, popup_border_style, help_key_style, preview, filetree, log, marks } = other;
        pick_key(&mut self.quit, quit, Key::normal('q'));
        pick_key(&mut self.help, help, Key::normal('?'));
        pick_key(&mut self.down, down, Key::normal('j'));
        pick_key(&mut self.up, up, Key::normal('k'));
        pick_key(&mut self.all_down, all_down, Key::normal('G'));
        pick_key(&mut self.all_up, all_up, Key::normal('g'));
        pick_key(&mut self.open, open, Key::key_code(KeyCode::Enter));
        pick_key(&mut self.kill_processes, kill_processes, Key::ctrl('c'));
        pick_nonempty(&mut self.commands, commands);
        pick_style(&mut self.selected, selected, Style::bg(Color::Black, Color::Magenta));
        pick_style(&mut self.popup_border_style, popup_border_style, Style::default());
        pick_style(&mut self.help_key_style, help_key_style, Style { color: Color::LightCyan, bg: Color::Reset, mods: Modifier { bold: true, italic: false } });
        merge_specials(&mut self.special_commands, special_commands);
        self.preview.merge_with(preview, sep);
        self.filetree.merge(filetree);
        self.log.merge(log);
        self.marks.merge(marks);
    }
}

impl Default for Config {
    fn default() -> (r: Config)
        ensures
            config_defaults(r, '/') || config_defaults(r, '\\'),
    {
        Config::default_with(main_separator())
    }
}

impl Merge for Config {
    fn merge(&mut self, other: Config)
        ensures
            config_merged(*old(self), other, *final(self), '/') || config_merged(*old(self), other, *final(self), '\\'),
    {
        self.merge_with(other, main_separator());
    }
}

/// The bindings of the actions' own keys, in a fixed order.
pub open spec fn own_bindings(c: Config) -> Seq<(ActionView, Key)> {
    seq![
        (ActionView::Quit, c.quit),
        (ActionView::Help, c.help),
        (ActionView::Down, c.down),
        (ActionView::Open, c.open),
        (ActionView::Up, c.up),
        (ActionView::AllDown, c.all_down),
        (ActionView::AllUp, c.all_up),
        (ActionView::PreviewDown, c.preview.down_key),
        (ActionView::PreviewUp, c.preview.up_key),
        (ActionView::FiletreeUpThree, c.filetree.up_three),
        (ActionView::FiletreeDownThree, c.filetree.down_three),
        (ActionView::FiletreeExecCmd, c.filetree.exec_cmd),
        (ActionView::FiletreeDelete, c.filetree.delete),
        (ActionView::FiletreeSearch, c.filetree.search),
        (ActionView::FiletreeClear, c.filetree.clear),
        (ActionView::FiletreeNewFile, c.filetree.new_file),
        (ActionView::FiletreeNewDir, c.filetree.new_dir),
        (ActionView::FiletreeGitFilter, c.filetree.git_filter),
        (ActionView::FiletreeDiffMode, c.filetree.diff_mode),
        (ActionView::FiletreeSpecialCommand, c.filetree.special_command),
        (ActionView::FiletreeMarkSelected, c.filetree.mark_selected),
        (ActionView::OpenMarks, c.marks.open),
        (ActionView::FiletreeOpenUnder, c.filetree.open_under),
        (ActionView::FiletreeCloseUnder, c.filetree.close_under),
        (ActionView::FiletreeShowDotfiles, c.filetree.show_dotfiles),
        (ActionView::KillProcesses, c.kill_processes),
    ]
}

/// The key bindings of the configuration: the actions' own, then each user command
/// bound to its key.
pub open spec fn bindings(c: Config) -> Seq<(ActionView, Key)> {
    own_bindings(c) + c.commands@.map_values(|p: (Key, String)| (ActionView::Arbitrary(p.1@), p.0))
}

/// The views of a sequence of bindings.
pub open spec fn binding_views(s: Seq<(Action, Key)>) -> Seq<(ActionView, Key)> {
    s.map_values(|p: (Action, Key)| (p.0@, p.1))
}

/// The views of a sequence of conflicts.
pub open spec fn conflict_views(s: Seq<KeyConflict>) -> Seq<(Key, Seq<ActionView>)> {
    s.map_values(|kc: KeyConflict| (kc.spec_on(), kc.spec_conflictors()))
}

fn duplicate_actions(v: &Vec<Action>) -> (r: Vec<Action>)
    ensures
        action_views(r@) == action_views(v@),
{
    let mut r: Vec<Action> = Vec::new();
    let mut i: usize = 0;
    while i < v.len()
        invariant
            i <= v@.len(),
            action_views(r@) == action_views(v@).take(i as int),
        decreases v@.len() - i,
    {
        let a = v[i].duplicate();
        let ghost before = r@;
        r.push(a);
        proof {
            assert(action_views(r@) =~= action_views(before).push(a@));
            assert(action_views(v@)[i as int] == v@[i as int]@);
            assert(action_views(r@) =~= action_views(v@).take(i + 1));
        }
        i = i + 1;
    }
    proof {
        assert(action_views(v@).take(i as int) =~= action_views(v@));
    }
    r
}

fn find_key(keys: &Vec<Key>, k: Key) -> (r: Option<usize>)
    ensures
        r matches Some(g) ==> g < keys@.len() && keys@[g as int] == k,
        r is None ==> !keys@.contains(k),
{
    let mut g: usize = 0;
    while g < keys.len()
        invariant
            g <= keys@.len(),
            forall|j: int| 0 <= j < g ==> keys@[j] != k,
        decreases keys@.len() - g,
    {
        if keys[g] == k {
            return Some(g);
        }
        g = g + 1;
    }
    None
}

impl Config {
    fn own_bindings_exec(&self) -> (r: Vec<(Action, Key)>)
        ensures
            binding_views(r@) == own_bindings(*self),
    {
        let mut r: Vec<(Action, Key)> = Vec::new();
        r.push((Action::Quit, self.quit));
        r.push((Action::Help, self.help));
        r.push((Action::Down, self.down));
        r.push((Action::Open, self.open));
        r.push((Action::Up, self.up));
        r.push((Action::AllDown, self.all_down));
        r.push((Action::AllUp, self.all_up));
        r.push((Action::PreviewDown, self.preview.down_key));
        r.push((Action::PreviewUp, self.preview.up_key));
        r.push((Action::FiletreeUpThree, self.filetree.up_three));
        r.push((Action::FiletreeDownThree, self.filetree.down_three));
        r.push((Action::FiletreeExecCmd, self.filetree.exec_cmd));
        r.push((Action::FiletreeDelete, self.filetree.delete));
        r.push((Action::FiletreeSearch, self.filetree.search));
        r.push((Action::FiletreeClear, self.filetree.clear));
        r.push((Action::FiletreeNewFile, self.filetree.new_file));
        r.push((Action::FiletreeNewDir, self.filetree.new_dir));
        r.push((Action::FiletreeGitFilter, self.filetree.git_filter));
        r.push((Action::FiletreeDiffMode, self.filetree.diff_mode));
        r.push((Action::FiletreeSpecialCommand, self.filetree.special_command));
        r.push((Action::FiletreeMarkSelected, self.filetree.mark_selected));
        r.push((Action::OpenMarks, self.marks.open));
        r.push((Action::FiletreeOpenUnder, self.filetree.open_under));
        r.push((Action::FiletreeCloseUnder, self.filetree.close_under));
        r.push((Action::FiletreeShowDotfiles, self.filetree.show_dotfiles));
        r.push((Action::KillProcesses, self.kill_processes));
        proof {
            assert(binding_views(r@) =~= own_bindings(*self));
        }
        r
    }

    /// The keys that more than one action uses, with those actions in order (see
    /// `conflicts_of` and `bindings`).
    pub fn check_conflicts(&self) -> (r: Vec<KeyConflict>)
        ensures
            conflict_views(r@) == conflicts_of(bindings(*self)),
    {
        let mut keys = self.own_bindings_exec();
        let ghost own = binding_views(keys@);
        let mut c: usize = 0;
        while c < self.commands.len()
            invariant
                c <= self.commands@.len(),
                binding_views(keys@) == own + self.commands@.map_values(
                    |p: (Key, String)| (ActionView::Arbitrary(p.1@), p.0),
                ).take(c as int),
            decreases self.commands@.len() - c,
        {
            let ghost before = binding_views(keys@);
            let cmd = self.commands[c].1.clone();
            let k = self.commands[c].0;
            keys.push((Action::Arbitrary(cmd), k));
            proof {
                let m = self.commands@.map_values(|p: (Key, String)| (ActionView::Arbitrary(p.1@), p.0));
                assert(m.take(c + 1) =~= m.take(c as int).push(m[c as int]));
                assert(binding_views(keys@) =~= before.push((ActionView::Arbitrary(cmd@), k)));
            }
            c = c + 1;
        }
        let ghost l = binding_views(keys@);
        proof {
            let m = self.commands@.map_values(|p: (Key, String)| (ActionView::Arbitrary(p.1@), p.0));
            assert(m.take(c as int) =~= m);
            assert(l == bindings(*self));
        }
        let mut gkeys: Vec<Key> = Vec::new();
        let mut gacts: Vec<Vec<Action>> = Vec::new();
        let mut i: usize = 0;
        proof {
            assert(l.take(0) =~= Seq::<(ActionView, Key)>::empty());
        }
        while i < keys.len()
            invariant
                i <= keys@.len(),
                l == binding_views(keys@),
                gkeys@ == first_keys(l.take(i as int)),
                gacts@.len() == gkeys@.len(),
                forall|g: int| 0 <= g < gkeys@.len() ==> action_views(#[trigger] gacts@[g]@) == actions_on(l.take(i as int), gkeys@[g]),
            decreases keys@.len() - i,
        {
            let a = keys[i].0.duplicate();
            let k = keys[i].1;
            let ghost t = l.take(i as int);
            let ghost t1 = l.take(i + 1);
            proof {
                assert(t1.drop_last() =~= t);
                assert(t1.last() == (a@, k));
            }
            match find_key(&gkeys, k) {
                Some(g) => {
                    let ghost old_acts = gacts@;
                    let mut acts = duplicate_actions(&gacts[g]);
                    acts.push(a);
                    proof {
                        assert(action_views(acts@) =~= action_views(old_acts[g as int]@).push(a@));
                    }
                    gacts.set(g, acts);
                    proof {
                        lemma_first_keys(t, k);
                        assert(gkeys@[g as int] == k);
                        assert(gkeys@.contains(k));
                        assert(first_keys(t1) == first_keys(t));
                        assert forall|h: int| 0 <= h < gkeys@.len() implies action_views(#[trigger] gacts@[h]@) == actions_on(t1, gkeys@[h]) by {
                            if h != g {
                                assert(gacts@[h] == old_acts[h]);
                            }
                        }
                    }
                },
                None => {
                    gkeys.push(k);
                    let mut acts: Vec<Action> = Vec::new();
                    acts.push(a);
                    let ghost old_acts = gacts@;
                    gacts.push(acts);
                    proof {
                        lemma_first_keys(t, k);
                        assert(actions_on(t, k) =~= Seq::<ActionView>::empty());
                        assert(action_views(acts@) =~= seq![a@]);
                        assert(first_keys(t1) == first_keys(t).push(k));
                        assert forall|h: int| 0 <= h < gkeys@.len() implies action_views(#[trigger] gacts@[h]@) == actions_on(t1, gkeys@[h]) by {
                            if h < old_acts.len() {
                                assert(gacts@[h] == old_acts[h]);
                                assert(gkeys@[h] != k);
                            }
                        }
                    }
                },
            }
            i = i + 1;
        }
        proof {
            assert(l.take(i as int) =~= l);
        }
        let ghost ks = gkeys@;
        let mut r: Vec<KeyConflict> = Vec::new();
        let mut g: usize = 0;
        while g < gkeys.len()
            invariant
                g <= gkeys@.len(),
                ks == gkeys@,
                ks == first_keys(l),
                gacts@.len() == gkeys@.len(),
                forall|h: int| 0 <= h < gkeys@.len() ==> action_views(#[trigger] gacts@[h]@) == actions_on(l, gkeys@[h]),
                conflict_views(r@) == conflicts_among(l, ks.take(g as int)),
            decreases gkeys@.len() - g,
        {
            proof {
                assert(ks.take(g + 1).drop_last() =~= ks.take(g as int));
                assert(ks.take(g + 1).last() == ks[g as int]);
                assert(action_views(gacts@[g as int]@) == actions_on(l, ks[g as int]));
            }
            if gacts[g].len() > 1 {
                let acts = duplicate_actions(&gacts[g]);
                let kc = KeyConflict::new(gkeys[g], acts);
                let ghost before = r@;
                r.push(kc);
                proof {
                    assert(conflict_views(r@) =~= conflict_views(before).push((kc.spec_on(), kc.spec_conflictors())));
                }
            }
            g = g + 1;
        }
        proof {
            assert(ks.take(g as int) =~= ks);
        }
        r
    }
}

} // verus!
