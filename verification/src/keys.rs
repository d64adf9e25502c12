//! Keybindings written as text (`Ctrl+Shift+R`, `q`, `Esc`, `Alt+1`) and
//! colours written as names or `#rrggbb`.

use vstd::prelude::*;
use crate::text;
use crate::text::{to_lowercase, unicode_lower};
use crate::forms::{hex_pair, hex_pair_exec};
use crate::utf8::byte_len;
use vstd::utf8::encode_utf8;

verus! {

broadcast use vstd::string::group_string_axioms;

/// A key, as the terminal reports it.
#[derive(Debug, Clone, Copy, PartialEq, Eq, Structural)]
pub enum KeyCode {
    Char(char),
    F(u8),
    Esc,
    Enter,
    Tab,
    BackTab,
    Backspace,
    Delete,
    Home,
    End,
    PageUp,
    PageDown,
    Up,
    Down,
    Left,
    Right,
    Insert,
}

/// Modifier keys held with a key: a set of flag bits.
#[derive(Debug, Clone, Copy, PartialEq, Eq, Structural)]
pub struct KeyModifiers {
    pub bits: u8,
}

impl KeyModifiers {
    pub fn shift() -> (r: KeyModifiers)
        ensures
            r.bits == 1,
    {
        KeyModifiers { bits: 1 }
    }

    pub fn control() -> (r: KeyModifiers)
        ensures
            r.bits == 2,
    {
        KeyModifiers { bits: 2 }
    }

    pub fn alt() -> (r: KeyModifiers)
        ensures
            r.bits == 4,
    {
        KeyModifiers { bits: 4 }
    }

    pub fn super_key() -> (r: KeyModifiers)
        ensures
            r.bits == 8,
    {
        KeyModifiers { bits: 8 }
    }

    pub fn empty() -> (r: KeyModifiers)
        ensures
            r.bits == 0,
    {
        KeyModifiers { bits: 0 }
    }

    /// Whether every flag of `other` is held.
    pub fn contains(self, other: KeyModifiers) -> (r: bool)
        ensures
            r == (self.bits & other.bits == other.bits),
    {
        self.bits & other.bits == other.bits
    }

    /// The flags of both.
    pub fn union(self, other: KeyModifiers) -> (r: KeyModifiers)
        ensures
            r.bits == self.bits | other.bits,
    {
        KeyModifiers { bits: self.bits | other.bits }
    }
}

/// A key press.
#[derive(Debug, Clone, Copy, PartialEq, Eq, Structural)]
pub struct KeyEvent {
    pub code: KeyCode,
    pub modifiers: KeyModifiers,
}

impl KeyEvent {
    pub fn new(code: KeyCode, modifiers: KeyModifiers) -> (r: KeyEvent)
        ensures
            r == (KeyEvent { code, modifiers }),
    {
        KeyEvent { code, modifiers }
    }
}

/// The flag and label of a modifier name (lower-cased).
pub open spec fn modifier_named(name: Seq<char>) -> Option<(u8, Seq<char>)> {
    if name == "ctrl"@ || name == "control"@ {
        Some((2u8, "Ctrl"@))
    } else if name == "alt"@ || name == "option"@ {
        Some((4u8, "Alt"@))
    } else if name == "shift"@ {
        Some((1u8, "Shift"@))
    } else if name == "super"@ || name == "win"@ || name == "cmd"@ {
        Some((8u8, "Super"@))
    } else {
        None
    }
}

/// The parts of a binding read in order: the modifier flags, their
/// labels, and the last part that is no modifier (the key).
pub open spec fn binding_parts(ps: Seq<Seq<char>>) -> (u8, Seq<Seq<char>>, Seq<char>)
    decreases ps.len(),
{
    if ps.len() == 0 {
        (0u8, Seq::empty(), Seq::empty())
    } else {
        let (m, ls, k) = binding_parts(ps.drop_last());
        let p = ps.last();
        match modifier_named(unicode_lower(text::trim(p))) {
            Some((b, l)) => (m | b, ls.push(l), k),
            None => (m, ls, p),
        }
    }
}

/// The key a name gives (lower-cased names; a single character is itself;
/// anything else is `?`).
pub open spec fn key_named(part: Seq<char>) -> KeyCode {
    let n = unicode_lower(text::trim(part));
    if n == "esc"@ {
        KeyCode::Esc
    } else if n == "enter"@ || n == "return"@ {
        KeyCode::Enter
    } else if n == "tab"@ {
        KeyCode::Tab
    } else if n == "backtab"@ {
        KeyCode::BackTab
    } else if n == "backspace"@ || n == "bs"@ {
        KeyCode::Backspace
    } else if n == "space"@ || n == " "@ {
        KeyCode::Char(' ')
    } else if n == "delete"@ || n == "del"@ {
        KeyCode::Delete
    } else if n == "home"@ {
        KeyCode::Home
    } else if n == "end"@ {
        KeyCode::End
    } else if n == "pageup"@ || n == "pgup"@ {
        KeyCode::PageUp
    } else if n == "pagedown"@ || n == "pgdn"@ || n == "pgdown"@ {
        KeyCode::PageDown
    } else if n == "up"@ {
        KeyCode::Up
    } else if n == "down"@ {
        KeyCode::Down
    } else if n == "left"@ {
        KeyCode::Left
    } else if n == "right"@ {
        KeyCode::Right
    } else if n == "insert"@ || n == "ins"@ {
        KeyCode::Insert
    } else if n.len() == 2 && n[0] == 'f' && '1' <= n[1] <= '9' {
        KeyCode::F(((n[1] as u32) - 48) as u8)
    } else if n == "f10"@ {
        KeyCode::F(10)
    } else if n == "f11"@ {
        KeyCode::F(11)
    } else if n == "f12"@ {
        KeyCode::F(12)
    } else if part.len() == 1 {
        KeyCode::Char(part[0])
    } else {
        KeyCode::Char('?')
    }
}

/// A binding read from text: the key, the modifiers, and a label of the
/// modifiers' names and the key as written, joined by `+`.
pub open spec fn binding_of(s: Seq<char>) -> (KeyCode, u8, Seq<char>) {
    let (m, ls, k) = binding_parts(text::split_on(s, '+'));
    (key_named(k), m, text::join(ls.push(k), seq!['+']))
}

fn modifier_exec(p: &str) -> (r: Option<(u8, &'static str)>)
    ensures
        match modifier_named(unicode_lower(text::trim(p@))) {
            Some((b, l)) => r matches Some((x, y)) && x == b && y@ == l,
            None => r is None,
        },
{
    let t = text::string_from(text::trimmed(text::chars_of(p).as_slice()).as_slice());
    let n = text::chars_of(to_lowercase(t.as_str()).as_str());
    if eq_str(&n, "ctrl") || eq_str(&n, "control") {
        Some((2, "Ctrl"))
    } else if eq_str(&n, "alt") || eq_str(&n, "option") {
        Some((4, "Alt"))
    } else if eq_str(&n, "shift") {
        Some((1, "Shift"))
    } else if eq_str(&n, "super") || eq_str(&n, "win") || eq_str(&n, "cmd") {
        Some((8, "Super"))
    } else {
        None
    }
}

fn eq_str(a: &Vec<char>, b: &str) -> (r: bool)
    ensures
        r == (a@ == b@),
{
    text::chars_eq(a.as_slice(), text::chars_of(b).as_slice())
}

fn key_exec(part: &str) -> (r: KeyCode)
    ensures
        r == key_named(part@),
{
    proof {
        reveal_strlit("f10");
        reveal_strlit("f11");
        reveal_strlit("f12");
    }
    let t = text::string_from(text::trimmed(text::chars_of(part).as_slice()).as_slice());
    let n = text::chars_of(to_lowercase(t.as_str()).as_str());
    if eq_str(&n, "esc") {
        KeyCode::Esc
    } else if eq_str(&n, "enter") || eq_str(&n, "return") {
        KeyCode::Enter
    } else if eq_str(&n, "tab") {
        KeyCode::Tab
    } else if eq_str(&n, "backtab") {
        KeyCode::BackTab
    } else if eq_str(&n, "backspace") || eq_str(&n, "bs") {
        KeyCode::Backspace
    } else if eq_str(&n, "space") || eq_str(&n, " ") {
        KeyCode::Char(' ')
    } else if eq_str(&n, "delete") || eq_str(&n, "del") {
        KeyCode::Delete
    } else if eq_str(&n, "home") {
        KeyCode::Home
    } else if eq_str(&n, "end") {
        KeyCode::End
    } else if eq_str(&n, "pageup") || eq_str(&n, "pgup") {
        KeyCode::PageUp
    } else if eq_str(&n, "pagedown") || eq_str(&n, "pgdn") || eq_str(&n, "pgdown") {
        KeyCode::PageDown
    } else if eq_str(&n, "up") {
        KeyCode::Up
    } else if eq_str(&n, "down") {
        KeyCode::Down
    } else if eq_str(&n, "left") {
        KeyCode::Left
    } else if eq_str(&n, "right") {
        KeyCode::Right
    } else if eq_str(&n, "insert") || eq_str(&n, "ins") {
        KeyCode::Insert
    } else if n.len() == 2 && n[0] == 'f' && '1' <= n[1] && n[1] <= '9' {
        KeyCode::F(((n[1] as u32) - 48) as u8)
    } else if eq_str(&n, "f10") {
        KeyCode::F(10)
    } else if eq_str(&n, "f11") {
        KeyCode::F(11)
    } else if eq_str(&n, "f12") {
        KeyCode::F(12)
    } else {
        let c = text::chars_of(part);
        if c.len() == 1 {
            KeyCode::Char(c[0])
        } else {
            KeyCode::Char('?')
        }
    }
}

/// Reads a keybinding such as `Ctrl+Shift+R`, `q`, `Esc` or `Alt+1`;
/// modifier and key names are matched in any letter case.
pub fn parse_binding(s: &str) -> (r: (KeyCode, KeyModifiers, String))
    ensures
        ({
            let (k, m, l) = binding_of(s@);
            r.0 == k && r.1.bits == m && r.2@ == l
        }),
{
    let parts = text::split_vecs(text::chars_of(s).as_slice(), '+');
    let ghost ps = text::views(parts@);
    let mut bits: u8 = 0;
    let mut labels: Vec<Vec<char>> = Vec::new();
    let mut key_part: Vec<char> = Vec::new();
    let mut i: usize = 0;
    assert(ps.take(0) =~= Seq::<Seq<char>>::empty());
    while i < parts.len()
        invariant
            i <= parts@.len(),
            ps == text::views(parts@),
            ps == text::split_on(s@, '+'),
            binding_parts(ps.take(i as int)) == (bits, text::views(labels@), key_part@),
        decreases parts@.len() - i,
    {
        assert(ps.take(i + 1).drop_last() =~= ps.take(i as int));
        assert(ps.take(i + 1).last() == parts@[i as int]@);
        let p = text::string_from(parts[i].as_slice());
        match modifier_exec(p.as_str()) {
            Some((b, l)) => {
                bits = bits | b;
                let ghost before = labels@;
                let lv = text::chars_of(l);
                labels.push(lv);
                assert(text::views(labels@) =~= text::views(before).push(l@));
            },
            None => {
                key_part = text::copy_chars(parts[i].as_slice());
            },
        }
        i = i + 1;
    }
    assert(ps.take(parts@.len() as int) =~= ps);
    let key = key_exec(text::string_from(key_part.as_slice()).as_str());
    let ghost before = labels@;
    labels.push(key_part);
    assert(text::views(labels@) =~= text::views(before).push(key_part@));
    let sep = ['+'];
    assert(sep@ =~= seq!['+']);
    let label = text::join_vecs(labels.as_slice(), sep.as_slice());
    (key, KeyModifiers { bits }, text::string_from(label.as_slice()))
}

/// Whether a key press is the one a binding names.
pub fn key_matches_binding(key: &KeyEvent, binding_str: &str) -> (r: bool)
    ensures
        ({
            let (k, m, _) = binding_of(binding_str@);
            r == (key.code == k && key.modifiers.bits == m)
        }),
{
    let (code, mods, _) = parse_binding(binding_str);
    key.code == code && key.modifiers.bits == mods.bits
}

/// A terminal colour.
#[derive(Debug, Clone, Copy, PartialEq, Eq, Structural)]
pub enum Color {
    Black,
    Red,
    Green,
    Yellow,
    Blue,
    Magenta,
    Cyan,
    Gray,
    DarkGray,
    LightRed,
    LightGreen,
    LightYellow,
    LightBlue,
    LightMagenta,
    LightCyan,
    White,
    Rgb(u8, u8, u8),
}

/// The byte value of two hexadecimal digits at `i` in `b`.
pub open spec fn hex_byte_at(b: Seq<u8>, i: int) -> u8 {
    match hex_pair(b[i], b[i + 1]) {
        Some(v) => v,
        None => 0,
    }
}

/// Whether the three byte pairs after the `#` each read as a hexadecimal
/// byte.
pub open spec fn hex_pairs_ok(b: Seq<u8>) -> bool {
    hex_pair(b[1], b[2]) is Some && hex_pair(b[3], b[4]) is Some && hex_pair(b[5], b[6]) is Some
}

/// Whether a colour text takes the `#rrggbb` form: `#` and seven bytes.
pub open spec fn hex_form(t: Seq<char>) -> bool {
    t.len() > 0 && t[0] == '#' && byte_len(t) == 7
}

/// The colour a (trimmed, lower-cased) name gives; cyan when it gives
/// none.
pub open spec fn color_named(t: Seq<char>) -> Color {
    if t == "black"@ {
        Color::Black
    } else if t == "red"@ {
        Color::Red
    } else if t == "green"@ {
        Color::Green
    } else if t == "yellow"@ {
        Color::Yellow
    } else if t == "blue"@ {
        Color::Blue
    } else if t == "magenta"@ {
        Color::Magenta
    } else if t == "cyan"@ {
        Color::Cyan
    } else if t == "white"@ {
        Color::White
    } else if t == "gray"@ || t == "grey"@ {
        Color::Gray
    } else if t == "dark_gray"@ || t == "dark_grey"@ {
        Color::DarkGray
    } else if t == "light_red"@ {
        Color::LightRed
    } else if t == "light_green"@ {
        Color::LightGreen
    } else if t == "light_yellow"@ {
        Color::LightYellow
    } else if t == "light_blue"@ {
        Color::LightBlue
    } else if t == "light_magenta"@ {
        Color::LightMagenta
    } else if t == "light_cyan"@ {
        Color::LightCyan
    } else if hex_form(t) && hex_pairs_ok(encode_utf8(t)) {
        let b = encode_utf8(t);
        Color::Rgb(hex_byte_at(b, 1), hex_byte_at(b, 3), hex_byte_at(b, 5))
    } else {
        Color::Cyan
    }
}

/// Reads a colour: a name in any letter case (`cyan`, `dark_gray`, ...) or
/// `#rrggbb`; cyan when it is neither.
pub fn parse_color(name: &str) -> (r: Color)
    ensures
        r == color_named(text::lower(text::trim(name@))),
{
    let t = text::lower_vec(text::trimmed(text::chars_of(name).as_slice()).as_slice());
    if eq_str(&t, "black") {
        Color::Black
    } else if eq_str(&t, "red") {
        Color::Red
    } else if eq_str(&t, "green") {
        Color::Green
    } else if eq_str(&t, "yellow") {
        Color::Yellow
    } else if eq_str(&t, "blue") {
        Color::Blue
    } else if eq_str(&t, "magenta") {
        Color::Magenta
    } else if eq_str(&t, "cyan") {
        Color::Cyan
    } else if eq_str(&t, "white") {
        Color::White
    } else if eq_str(&t, "gray") || eq_str(&t, "grey") {
        Color::Gray
    } else if eq_str(&t, "dark_gray") || eq_str(&t, "dark_grey") {
        Color::DarkGray
    } else if eq_str(&t, "light_red") {
        Color::LightRed
    } else if eq_str(&t, "light_green") {
        Color::LightGreen
    } else if eq_str(&t, "light_yellow") {
        Color::LightYellow
    } else if eq_str(&t, "light_blue") {
        Color::LightBlue
    } else if eq_str(&t, "light_magenta") {
        Color::LightMagenta
    } else if eq_str(&t, "light_cyan") {
        Color::LightCyan
    } else {
        let ts = text::string_from(t.as_slice());
        let b = ts.as_str().as_bytes();
        if t.len() > 0 && t[0] == '#' && b.len() == 7 {
            match (hex_pair_exec(b[1], b[2]), hex_pair_exec(b[3], b[4]), hex_pair_exec(b[5], b[6])) {
                (Some(r), Some(g), Some(bl)) => Color::Rgb(r, g, bl),
                _ => Color::Cyan,
            }
        } else {
            Color::Cyan
        }
    }
}

} // verus!
