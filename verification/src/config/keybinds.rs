//! Key combinations and actions as texts.
use vstd::prelude::*;
use crate::config::settings::Settings;
use crate::text::{
    all_ascii, ascii_lowered, chars_of, copy, is_ascii_upper, is_space, join, joined,
    law_split_undoes_join, lemma_trim_nothing, opt_view, same, split, split_on, string_of_range,
    to_lowercase, trim, trimmed, unicode_lowercase, views,
};
use crate::wm::geometry::Direction;
use crate::wm::input::{
    Act, Action, Bind, Key, Modifiers, COMMAND_BIT, CONTROL_BIT, OPTION_BIT, SHIFT_BIT,
};
use crate::wm::workspace::{law_target_round_trip, target_named, WorkspaceTarget};

verus! {

/// A key combination of the configuration and what it does.
#[derive(Debug, PartialEq, Eq)]
pub struct LuaKeybind {
    pub modifiers: Modifiers,
    pub key: Key,
    pub action: Action,
}

impl View for LuaKeybind {
    type V = Bind;

    open spec fn view(&self) -> Bind {
        Bind { modifiers: self.modifiers, key: self.key, action: self.action@ }
    }
}

impl Clone for LuaKeybind {
    fn clone(&self) -> (r: Self)
        ensures
            r@ == self@,
    {
        LuaKeybind { modifiers: self.modifiers, key: self.key, action: self.action.clone() }
    }
}

impl LuaKeybind {
    /// Whether two bindings are the same.
    pub fn is(&self, other: &LuaKeybind) -> (r: bool)
        ensures
            r == (self@ == other@),
    {
        self.modifiers == other.modifiers && self.key == other.key && self.action.is(&other.action)
    }
}

pub open spec fn bind_views(s: Seq<LuaKeybind>) -> Seq<Bind> {
    Seq::new(s.len(), |i: int| s[i]@)
}

/// Whether a list has a binding.
pub fn has_bind(list: &Vec<LuaKeybind>, bind: &LuaKeybind) -> (r: bool)
    ensures
        r == bind_views(list@).contains(bind@),
{
    let mut i: usize = 0;
    while i < list.len()
        invariant
            i <= list@.len(),
            forall|j: int| 0 <= j < i ==> (#[trigger] list@[j])@ != bind@,
        decreases list.len() - i,
    {
        if list[i].is(bind) {
            assert(bind_views(list@)[i as int] == bind@);
            return true;
        }
        i = i + 1;
    }
    proof {
        if bind_views(list@).contains(bind@) {
            let j = choose|j: int| 0 <= j < list@.len() && bind_views(list@)[j] == bind@;
            assert(list@[j]@ == bind@);
        }
    }
    false
}

/// Copies bindings.
pub fn copy_binds(list: &Vec<LuaKeybind>) -> (r: Vec<LuaKeybind>)
    ensures
        bind_views(r@) == bind_views(list@),
{
    let mut out: Vec<LuaKeybind> = Vec::new();
    let mut i: usize = 0;
    while i < list.len()
        invariant
            i <= list@.len(),
            bind_views(out@) == bind_views(list@).take(i as int),
        decreases list.len() - i,
    {
        let ghost before = bind_views(out@);
        out.push(list[i].clone());
        assert(bind_views(out@) =~= before.push(bind_views(list@)[i as int]));
        assert(bind_views(list@).take(i + 1) =~= bind_views(list@).take(i as int).push(
            bind_views(list@)[i as int],
        ));
        i = i + 1;
    }
    assert(bind_views(list@).take(list@.len() as int) =~= bind_views(list@));
    out
}

// --- Keys ---

/// The key of one character.
pub open spec fn key_of_char(c: char) -> Option<Key> {
    match c {
        'a' => Some(Key::A),
        'b' => Some(Key::B),
        'c' => Some(Key::C),
        'd' => Some(Key::D),
        'e' => Some(Key::E),
        'f' => Some(Key::F),
        'g' => Some(Key::G),
        'h' => Some(Key::H),
        'i' => Some(Key::I),
        'j' => Some(Key::J),
        'k' => Some(Key::K),
        'l' => Some(Key::L),
        'm' => Some(Key::M),
        'n' => Some(Key::N),
        'o' => Some(Key::O),
        'p' => Some(Key::P),
        'q' => Some(Key::Q),
        'r' => Some(Key::R),
        's' => Some(Key::S),
        't' => Some(Key::T),
        'u' => Some(Key::U),
        'v' => Some(Key::V),
        'w' => Some(Key::W),
        'x' => Some(Key::X),
        'y' => Some(Key::Y),
        'z' => Some(Key::Z),
        '0' => Some(Key::Num0),
        '1' => Some(Key::Num1),
        '2' => Some(Key::Num2),
        '3' => Some(Key::Num3),
        '4' => Some(Key::Num4),
        '5' => Some(Key::Num5),
        '6' => Some(Key::Num6),
        '7' => Some(Key::Num7),
        '8' => Some(Key::Num8),
        '9' => Some(Key::Num9),
        '`' => Some(Key::Grave),
        '-' => Some(Key::Minus),
        '=' => Some(Key::Equal),
        ',' => Some(Key::Comma),
        '.' => Some(Key::Period),
        _ => None,
    }
}

/// The key of a name.
pub open spec fn key_named(name: Seq<char>) -> Option<Key> {
    if name.len() == 1 {
        key_of_char(name[0])
    } else if name == "return"@ || name == "enter"@ {
        Some(Key::Return)
    } else if name == "space"@ {
        Some(Key::Space)
    } else if name == "tab"@ {
        Some(Key::Tab)
    } else if name == "escape"@ || name == "esc"@ {
        Some(Key::Escape)
    } else if name == "delete"@ || name == "backspace"@ {
        Some(Key::Delete)
    } else if name == "grave"@ {
        Some(Key::Grave)
    } else if name == "minus"@ {
        Some(Key::Minus)
    } else if name == "equal"@ {
        Some(Key::Equal)
    } else if name == "left"@ {
        Some(Key::Left)
    } else if name == "right"@ {
        Some(Key::Right)
    } else if name == "up"@ {
        Some(Key::Up)
    } else if name == "down"@ {
        Some(Key::Down)
    } else if name == "comma"@ {
        Some(Key::Comma)
    } else if name == "period"@ {
        Some(Key::Period)
    } else {
        None
    }
}

fn char_to_key(c: char) -> (r: Option<Key>)
    ensures
        r == key_of_char(c),
{
    match c {
        'a' => Some(Key::A),
        'b' => Some(Key::B),
        'c' => Some(Key::C),
        'd' => Some(Key::D),
        'e' => Some(Key::E),
        'f' => Some(Key::F),
        'g' => Some(Key::G),
        'h' => Some(Key::H),
        'i' => Some(Key::I),
        'j' => Some(Key::J),
        'k' => Some(Key::K),
        'l' => Some(Key::L),
        'm' => Some(Key::M),
        'n' => Some(Key::N),
        'o' => Some(Key::O),
        'p' => Some(Key::P),
        'q' => Some(Key::Q),
        'r' => Some(Key::R),
        's' => Some(Key::S),
        't' => Some(Key::T),
        'u' => Some(Key::U),
        'v' => Some(Key::V),
        'w' => Some(Key::W),
        'x' => Some(Key::X),
        'y' => Some(Key::Y),
        'z' => Some(Key::Z),
        '0' => Some(Key::Num0),
        '1' => Some(Key::Num1),
        '2' => Some(Key::Num2),
        '3' => Some(Key::Num3),
        '4' => Some(Key::Num4),
        '5' => Some(Key::Num5),
        '6' => Some(Key::Num6),
        '7' => Some(Key::Num7),
        '8' => Some(Key::Num8),
        '9' => Some(Key::Num9),
        '`' => Some(Key::Grave),
        '-' => Some(Key::Minus),
        '=' => Some(Key::Equal),
        ',' => Some(Key::Comma),
        '.' => Some(Key::Period),
        _ => None,
    }
}

/// Reads the name of a key.
pub fn parse_key_name(name: &str) -> (r: Result<Key, &'static str>)
    ensures
        match r {
            Ok(key) => key_named(name@) == Some(key),
            Err(e) => key_named(name@) is None && e@ == "unknown key name"@,
        },
{
    let v = chars_of(name);
    if v.len() == 1 {
        return match char_to_key(v[0]) {
            Some(key) => Ok(key),
            None => Err("unknown key name"),
        };
    }
    if same(name, "return") || same(name, "enter") {
        Ok(Key::Return)
    } else if same(name, "space") {
        Ok(Key::Space)
    } else if same(name, "tab") {
        Ok(Key::Tab)
    } else if same(name, "escape") || same(name, "esc") {
        Ok(Key::Escape)
    } else if same(name, "delete") || same(name, "backspace") {
        Ok(Key::Delete)
    } else if same(name, "grave") {
        Ok(Key::Grave)
    } else if same(name, "minus") {
        Ok(Key::Minus)
    } else if same(name, "equal") {
        Ok(Key::Equal)
    } else if same(name, "left") {
        Ok(Key::Left)
    } else if same(name, "right") {
        Ok(Key::Right)
    } else if same(name, "up") {
        Ok(Key::Up)
    } else if same(name, "down") {
        Ok(Key::Down)
    } else if same(name, "comma") {
        Ok(Key::Comma)
    } else if same(name, "period") {
        Ok(Key::Period)
    } else {
        Err("unknown key name")
    }
}

/// The name of a key.
pub open spec fn name_of_key(key: Key) -> Seq<char> {
    match key {
        Key::A => seq!['a'],
        Key::B => seq!['b'],
        Key::C => seq!['c'],
        Key::D => seq!['d'],
        Key::E => seq!['e'],
        Key::F => seq!['f'],
        Key::G => seq!['g'],
        Key::H => seq!['h'],
        Key::I => seq!['i'],
        Key::J => seq!['j'],
        Key::K => seq!['k'],
        Key::L => seq!['l'],
        Key::M => seq!['m'],
        Key::N => seq!['n'],
        Key::O => seq!['o'],
        Key::P => seq!['p'],
        Key::Q => seq!['q'],
        Key::R => seq!['r'],
        Key::S => seq!['s'],
        Key::T => seq!['t'],
        Key::U => seq!['u'],
        Key::V => seq!['v'],
        Key::W => seq!['w'],
        Key::X => seq!['x'],
        Key::Y => seq!['y'],
        Key::Z => seq!['z'],
        Key::Num0 => seq!['0'],
        Key::Num1 => seq!['1'],
        Key::Num2 => seq!['2'],
        Key::Num3 => seq!['3'],
        Key::Num4 => seq!['4'],
        Key::Num5 => seq!['5'],
        Key::Num6 => seq!['6'],
        Key::Num7 => seq!['7'],
        Key::Num8 => seq!['8'],
        Key::Num9 => seq!['9'],
        Key::Return => "return"@,
        Key::Space => "space"@,
        Key::Tab => "tab"@,
        Key::Escape => "escape"@,
        Key::Delete => "delete"@,
        Key::Grave => "grave"@,
        Key::Minus => "minus"@,
        Key::Equal => "equal"@,
        Key::LeftBracket => "left_bracket"@,
        Key::RightBracket => "right_bracket"@,
        Key::Semicolon => "semicolon"@,
        Key::Quote => "quote"@,
        Key::Comma => "comma"@,
        Key::Period => "period"@,
        Key::Slash => "slash"@,
        Key::Backslash => "backslash"@,
        Key::Left => "left"@,
        Key::Right => "right"@,
        Key::Up => "up"@,
        Key::Down => "down"@,
        Key::F1 => "f1"@,
        Key::F2 => "f2"@,
        Key::F3 => "f3"@,
        Key::F4 => "f4"@,
        Key::F5 => "f5"@,
        Key::F6 => "f6"@,
        Key::F7 => "f7"@,
        Key::F8 => "f8"@,
        Key::F9 => "f9"@,
        Key::F10 => "f10"@,
        Key::F11 => "f11"@,
        Key::F12 => "f12"@,
    }
}

pub fn key_name(key: Key) -> (r: &'static str)
    ensures
        r@ == name_of_key(key),
{
    let r: &'static str = match key {
        Key::A => "a",
        Key::B => "b",
        Key::C => "c",
        Key::D => "d",
        Key::E => "e",
        Key::F => "f",
        Key::G => "g",
        Key::H => "h",
        Key::I => "i",
        Key::J => "j",
        Key::K => "k",
        Key::L => "l",
        Key::M => "m",
        Key::N => "n",
        Key::O => "o",
        Key::P => "p",
        Key::Q => "q",
        Key::R => "r",
        Key::S => "s",
        Key::T => "t",
        Key::U => "u",
        Key::V => "v",
        Key::W => "w",
        Key::X => "x",
        Key::Y => "y",
        Key::Z => "z",
        Key::Num0 => "0",
        Key::Num1 => "1",
        Key::Num2 => "2",
        Key::Num3 => "3",
        Key::Num4 => "4",
        Key::Num5 => "5",
        Key::Num6 => "6",
        Key::Num7 => "7",
        Key::Num8 => "8",
        Key::Num9 => "9",
        Key::Return => "return",
        Key::Space => "space",
        Key::Tab => "tab",
        Key::Escape => "escape",
        Key::Delete => "delete",
        Key::Grave => "grave",
        Key::Minus => "minus",
        Key::Equal => "equal",
        Key::LeftBracket => "left_bracket",
        Key::RightBracket => "right_bracket",
        Key::Semicolon => "semicolon",
        Key::Quote => "quote",
        Key::Comma => "comma",
        Key::Period => "period",
        Key::Slash => "slash",
        Key::Backslash => "backslash",
        Key::Left => "left",
        Key::Right => "right",
        Key::Up => "up",
        Key::Down => "down",
        Key::F1 => "f1",
        Key::F2 => "f2",
        Key::F3 => "f3",
        Key::F4 => "f4",
        Key::F5 => "f5",
        Key::F6 => "f6",
        Key::F7 => "f7",
        Key::F8 => "f8",
        Key::F9 => "f9",
        Key::F10 => "f10",
        Key::F11 => "f11",
        Key::F12 => "f12",
    };
    proof {
        reveal_strlit("a");
        reveal_strlit("b");
        reveal_strlit("c");
        reveal_strlit("d");
        reveal_strlit("e");
        reveal_strlit("f");
        reveal_strlit("g");
        reveal_strlit("h");
        reveal_strlit("i");
        reveal_strlit("j");
        reveal_strlit("k");
        reveal_strlit("l");
        reveal_strlit("m");
        reveal_strlit("n");
        reveal_strlit("o");
        reveal_strlit("p");
        reveal_strlit("q");
        reveal_strlit("r");
        reveal_strlit("s");
        reveal_strlit("t");
        reveal_strlit("u");
        reveal_strlit("v");
        reveal_strlit("w");
        reveal_strlit("x");
        reveal_strlit("y");
        reveal_strlit("z");
        reveal_strlit("0");
        reveal_strlit("1");
        reveal_strlit("2");
        reveal_strlit("3");
        reveal_strlit("4");
        reveal_strlit("5");
        reveal_strlit("6");
        reveal_strlit("7");
        reveal_strlit("8");
        reveal_strlit("9");
        assert(r@ =~= name_of_key(key));
    }
    r
}

/// Keys whose names can be read.
pub open spec fn has_readable_name(key: Key) -> bool {
    match key {
        Key::LeftBracket | Key::RightBracket | Key::Semicolon | Key::Quote | Key::Slash
        | Key::Backslash | Key::F1 | Key::F2 | Key::F3 | Key::F4 | Key::F5 | Key::F6 | Key::F7
        | Key::F8 | Key::F9 | Key::F10 | Key::F11 | Key::F12 => false,
        _ => true,
    }
}

/// The name of a key is read back, for every key whose name can be read.
pub proof fn law_key_name_round_trip(key: Key)
    requires
        has_readable_name(key),
    ensures
        key_named(name_of_key(key)) == Some(key),
{
    reveal_strlit("return");
    reveal_strlit("enter");
    reveal_strlit("space");
    reveal_strlit("tab");
    reveal_strlit("escape");
    reveal_strlit("esc");
    reveal_strlit("delete");
    reveal_strlit("backspace");
    reveal_strlit("grave");
    reveal_strlit("minus");
    reveal_strlit("equal");
    reveal_strlit("left");
    reveal_strlit("right");
    reveal_strlit("up");
    reveal_strlit("down");
    reveal_strlit("comma");
    reveal_strlit("period");
    assert("return"@.len() == 6);
    assert("enter"@.len() == 5);
    assert("space"@.len() == 5);
    assert("tab"@.len() == 3);
    assert("escape"@.len() == 6);
    assert("esc"@.len() == 3);
    assert("delete"@.len() == 6);
    assert("backspace"@.len() == 9);
    assert("grave"@.len() == 5);
    assert("minus"@.len() == 5);
    assert("equal"@.len() == 5);
    assert("left"@.len() == 4);
    assert("right"@.len() == 5);
    assert("up"@.len() == 2);
    assert("down"@.len() == 4);
    assert("comma"@.len() == 5);
    assert("period"@.len() == 6);
    assert("return"@[0] != "escape"@[0]);
    assert("return"@[0] != "delete"@[0]);
    assert("return"@[0] != "period"@[0]);
    assert("enter"@[0] != "space"@[0]);
    assert("enter"@[0] != "grave"@[0]);
    assert("enter"@[0] != "minus"@[0]);
    assert("enter"@[1] != "equal"@[1]);
    assert("enter"@[0] != "right"@[0]);
    assert("enter"@[0] != "comma"@[0]);
    assert("space"@[0] != "grave"@[0]);
    assert("space"@[0] != "minus"@[0]);
    assert("space"@[0] != "equal"@[0]);
    assert("space"@[0] != "right"@[0]);
    assert("space"@[0] != "comma"@[0]);
    assert("tab"@[0] != "esc"@[0]);
    assert("escape"@[0] != "delete"@[0]);
    assert("escape"@[0] != "period"@[0]);
    assert("delete"@[0] != "period"@[0]);
    assert("grave"@[0] != "minus"@[0]);
    assert("grave"@[0] != "equal"@[0]);
    assert("grave"@[0] != "right"@[0]);
    assert("grave"@[0] != "comma"@[0]);
    assert("minus"@[0] != "equal"@[0]);
    assert("minus"@[0] != "right"@[0]);
    assert("minus"@[0] != "comma"@[0]);
    assert("equal"@[0] != "right"@[0]);
    assert("equal"@[0] != "comma"@[0]);
    assert("left"@[0] != "down"@[0]);
    assert("right"@[0] != "comma"@[0]);
}

// --- Key combinations ---

/// The parts of a key combination.
pub open spec fn key_parts(spec: Seq<char>) -> Seq<Seq<char>> {
    let raw = split_on(spec, '+');
    Seq::new(raw.len(), |i: int| trimmed(raw[i]))
}

/// The parts in lower case.
pub open spec fn lowered_parts(parts: Seq<Seq<char>>) -> Seq<Seq<char>> {
    Seq::new(parts.len(), |i: int| unicode_lowercase(parts[i]))
}

/// Whether all parts consist of ASCII characters.
pub open spec fn all_ascii_parts(parts: Seq<Seq<char>>) -> bool {
    forall|i: int| 0 <= i < parts.len() ==> all_ascii(#[trigger] parts[i])
}

/// The parts with every ASCII letter in lower case.
pub open spec fn ascii_lowered_parts(parts: Seq<Seq<char>>) -> Seq<Seq<char>> {
    Seq::new(parts.len(), |i: int| ascii_lowered(parts[i]))
}

/// The modifiers that a part names.
pub open spec fn modifiers_named(part: Seq<char>, mod_key: Modifiers) -> Option<Modifiers> {
    if part == "mod"@ {
        Some(mod_key)
    } else if part == "shift"@ {
        Some(Modifiers { bits: SHIFT_BIT })
    } else if part == "ctrl"@ || part == "control"@ {
        Some(Modifiers { bits: CONTROL_BIT })
    } else if part == "option"@ || part == "alt"@ {
        Some(Modifiers { bits: OPTION_BIT })
    } else if part == "command"@ || part == "cmd"@ {
        Some(Modifiers { bits: COMMAND_BIT })
    } else {
        None
    }
}

/// The modifiers of all parts together and the last key, unless a part is
/// neither.
pub open spec fn parts_read(
    parts: Seq<Seq<char>>,
    mod_key: Modifiers,
) -> Option<(Modifiers, Option<Key>)>
    decreases parts.len(),
{
    if parts.len() == 0 {
        Some((Modifiers { bits: 0 }, None))
    } else {
        match parts_read(parts.drop_last(), mod_key) {
            None => None,
            Some((modifiers, key)) => match modifiers_named(parts.last(), mod_key) {
                Some(more) => Some((modifiers.with(more), key)),
                None => match key_named(parts.last()) {
                    Some(k) => Some((modifiers, Some(k))),
                    None => None,
                },
            },
        }
    }
}

/// The key combination of some parts, or what is wrong with them.
pub open spec fn combination(
    parts: Seq<Seq<char>>,
    mod_key: Modifiers,
) -> Result<(Modifiers, Key), Seq<char>> {
    match parts_read(parts, mod_key) {
        None => Err("unknown key name"@),
        Some((_, None)) => Err("no key in keybind"@),
        Some((modifiers, Some(key))) => Ok((modifiers, key)),
    }
}

fn read_modifiers(part: &str, mod_key: Modifiers) -> (r: Option<Modifiers>)
    ensures
        r == modifiers_named(part@, mod_key),
{
    if same(part, "mod") {
        Some(mod_key)
    } else if same(part, "shift") {
        Some(Modifiers::shift())
    } else if same(part, "ctrl") || same(part, "control") {
        Some(Modifiers::control())
    } else if same(part, "option") || same(part, "alt") {
        Some(Modifiers::option())
    } else if same(part, "command") || same(part, "cmd") {
        Some(Modifiers::command())
    } else {
        None
    }
}

/// Reads a key combination from its parts in lower case.
pub fn parse_key_parts(parts: &Vec<String>, mod_key: Modifiers) -> (r: Result<
    (Modifiers, Key),
    &'static str,
>)
    ensures
        match r {
            Ok((m, k)) => combination(views(parts@), mod_key) == Ok::<_, Seq<char>>((m, k)),
            Err(e) => combination(views(parts@), mod_key) == Err::<(Modifiers, Key), _>(e@),
        },
{
    let ghost all = views(parts@);
    let mut modifiers: Modifiers = Modifiers::empty();
    let mut key: Option<Key> = None;
    let mut i: usize = 0;
    while i < parts.len()
        invariant
            all == views(parts@),
            i <= parts@.len(),
            parts_read(all.take(i as int), mod_key) == Some((modifiers, key)),
        decreases parts.len() - i,
    {
        let part: &str = parts[i].as_str();
        proof {
            assert(all.take(i + 1).drop_last() =~= all.take(i as int));
            assert(all.take(i + 1).last() == part@);
        }
        match read_modifiers(part, mod_key) {
            Some(more) => {
                modifiers = modifiers.union(more);
            },
            None => match parse_key_name(part) {
                Ok(k) => {
                    key = Some(k);
                },
                Err(e) => {
                    proof {
                        lemma_unread(all, mod_key, i + 1);
                    }
                    return Err(e);
                },
            },
        }
        i = i + 1;
    }
    assert(all.take(all.len() as int) =~= all);
    match key {
        Some(k) => Ok((modifiers, k)),
        None => Err("no key in keybind"),
    }
}

/// What cannot be read at some part cannot be read at all.
proof fn lemma_unread(parts: Seq<Seq<char>>, mod_key: Modifiers, n: int)
    requires
        0 <= n <= parts.len(),
        parts_read(parts.take(n), mod_key) is None,
    ensures
        parts_read(parts, mod_key) is None,
    decreases parts.len() - n,
{
    if n < parts.len() {
        assert(parts.take(n + 1).drop_last() =~= parts.take(n));
        lemma_unread(parts, mod_key, n + 1);
    } else {
        assert(parts.take(n) =~= parts);
    }
}

/// Reads a key combination such as `mod+shift+q`.
pub fn parse_key_spec(spec: &str, mod_key: Modifiers) -> (r: Result<
    (Modifiers, Key),
    &'static str,
>)
    ensures
        match r {
            Ok((m, k)) => combination(lowered_parts(key_parts(spec@)), mod_key) == Ok::<
                _,
                Seq<char>,
            >((m, k)),
            Err(e) => combination(lowered_parts(key_parts(spec@)), mod_key) == Err::<
                (Modifiers, Key),
                _,
            >(e@),
        },
        all_ascii_parts(key_parts(spec@)) ==> lowered_parts(key_parts(spec@))
            == ascii_lowered_parts(key_parts(spec@)),
{
    let raw = split(spec, '+');
    let ghost all = key_parts(spec@);
    let mut parts: Vec<String> = Vec::new();
    let mut i: usize = 0;
    while i < raw.len()
        invariant
            views(raw@) == split_on(spec@, '+'),
            all == key_parts(spec@),
            i <= raw@.len(),
            views(parts@) == lowered_parts(all).take(i as int),
            forall|j: int|
                0 <= j < i && all_ascii(#[trigger] all[j]) ==> lowered_parts(all)[j]
                    == ascii_lowered(all[j]),
        decreases raw.len() - i,
    {
        let part = trim(raw[i].as_str());
        assert(part@ == all[i as int]) by {
            assert(views(raw@)[i as int] == raw@[i as int]@);
        }
        let lower = to_lowercase(part.as_str());
        let ghost before = views(parts@);
        parts.push(lower);
        assert(views(parts@) =~= before.push(lowered_parts(all)[i as int]));
        assert(lowered_parts(all).take(i + 1) =~= lowered_parts(all).take(i as int).push(
            lowered_parts(all)[i as int],
        ));
        i = i + 1;
    }
    assert(views(raw@).len() == raw@.len());
    assert(lowered_parts(all).take(all.len() as int) =~= lowered_parts(all));
    assert(all_ascii_parts(all) ==> lowered_parts(all) =~= ascii_lowered_parts(all));
    parse_key_parts(&parts, mod_key)
}

/// The parts of a key combination in the order in which they are written.
pub open spec fn spec_parts(modifiers: Modifiers, key: Key, mod_key: Modifiers) -> Seq<Seq<char>> {
    let control = Modifiers { bits: CONTROL_BIT };
    let option = Modifiers { bits: OPTION_BIT };
    let command = Modifiers { bits: COMMAND_BIT };
    (if modifiers.has(mod_key) { seq!["mod"@] } else { seq![] }) + (if modifiers.has(
        Modifiers { bits: SHIFT_BIT },
    ) { seq!["shift"@] } else { seq![] }) + (if modifiers.has(control) && mod_key != control {
        seq!["ctrl"@]
    } else {
        seq![]
    }) + (if modifiers.has(option) && mod_key != option { seq!["option"@] } else { seq![] }) + (
    if modifiers.has(command) && mod_key != command { seq!["command"@] } else { seq![] })
        + seq![name_of_key(key)]
}

fn push_if(parts: &mut Vec<String>, wanted: bool, text: &str)
    ensures
        views(final(parts)@) == views(old(parts)@) + (if wanted {
            seq![text@]
        } else {
            seq![]
        }),
{
    if wanted {
        parts.push(copy(text));
    }
    assert(views(parts@) =~= views(old(parts)@) + (if wanted {
        seq![text@]
    } else {
        seq![]
    }));
}

/// Writes a key combination.
pub fn format_key_spec(modifiers: Modifiers, key: Key, mod_key: Modifiers) -> (r: String)
    ensures
        r@ == joined(spec_parts(modifiers, key, mod_key), "+"@),
{
    let mut parts: Vec<String> = Vec::new();
    assert(views(parts@) =~= seq![]);
    push_if(&mut parts, modifiers.contains(mod_key), "mod");
    push_if(&mut parts, modifiers.contains(Modifiers::shift()), "shift");
    push_if(
        &mut parts,
        modifiers.contains(Modifiers::control()) && mod_key != Modifiers::control(),
        "ctrl",
    );
    push_if(
        &mut parts,
        modifiers.contains(Modifiers::option()) && mod_key != Modifiers::option(),
        "option",
    );
    push_if(
        &mut parts,
        modifiers.contains(Modifiers::command()) && mod_key != Modifiers::command(),
        "command",
    );
    push_if(&mut parts, true, key_name(key));
    assert(views(parts@) =~= spec_parts(modifiers, key, mod_key));
    join(&parts, "+")
}

// --- Actions ---

/// The first word of a text and what follows the space behind it.
pub open spec fn cut_at_space(s: Seq<char>) -> (Seq<char>, Option<Seq<char>>)
    decreases s.len(),
{
    if s.len() == 0 {
        (seq![], None)
    } else if s[0] == ' ' {
        (seq![], Some(s.skip(1)))
    } else {
        let (word, rest) = cut_at_space(s.skip(1));
        (seq![s[0]] + word, rest)
    }
}

fn cut_text(s: &str) -> (r: (String, Option<String>))
    ensures
        r.0@ == cut_at_space(s@).0,
        opt_view(r.1) == cut_at_space(s@).1,
{
    let v = chars_of(s);
    let n: usize = v.len();
    let mut i: usize = 0;
    assert(v@.skip(0) =~= v@);
    assert(v@.subrange(0, 0) + cut_at_space(v@).0 =~= cut_at_space(v@).0);
    while i < n && v[i] != ' '
        invariant
            n == v@.len(),
            i <= n,
            v@ == s@,
            cut_at_space(v@).0 == v@.subrange(0, i as int) + cut_at_space(v@.skip(i as int)).0,
            cut_at_space(v@).1 == cut_at_space(v@.skip(i as int)).1,
        decreases n - i,
    {
        proof {
            let rest = v@.skip(i as int);
            assert(rest.skip(1) =~= v@.skip(i + 1));
            assert(rest[0] == v@[i as int]);
            assert(v@.subrange(0, i + 1) =~= v@.subrange(0, i as int) + seq![v@[i as int]]);
            assert(v@.subrange(0, i + 1) + cut_at_space(v@.skip(i + 1)).0 =~= v@.subrange(
                0,
                i as int,
            ) + cut_at_space(rest).0);
        }
        i = i + 1;
    }
    let word = string_of_range(&v, 0, i);
    if i < n {
        let rest = string_of_range(&v, i + 1, n);
        proof {
            assert(v@.skip(i as int)[0] == ' ');
            assert(rest@ =~= v@.skip(i as int).skip(1));
            assert(word@ =~= cut_at_space(v@).0);
        }
        (word, Some(rest))
    } else {
        proof {
            assert(v@.skip(i as int) =~= seq![]);
            assert(word@ =~= cut_at_space(v@).0);
        }
        (word, None)
    }
}

/// The direction of a name.
pub open spec fn direction_named(s: Seq<char>) -> Option<Direction> {
    if s == "left"@ {
        Some(Direction::Left)
    } else if s == "right"@ {
        Some(Direction::Right)
    } else if s == "up"@ {
        Some(Direction::Up)
    } else if s == "down"@ {
        Some(Direction::Down)
    } else {
        None
    }
}

pub fn parse_direction(s: &str) -> (r: Result<Direction, &'static str>)
    ensures
        match r {
            Ok(d) => direction_named(s@) == Some(d),
            Err(e) => direction_named(s@) is None && e@ == "invalid direction"@,
        },
{
    if same(s, "left") {
        Ok(Direction::Left)
    } else if same(s, "right") {
        Ok(Direction::Right)
    } else if same(s, "up") {
        Ok(Direction::Up)
    } else if same(s, "down") {
        Ok(Direction::Down)
    } else {
        Err("invalid direction")
    }
}

/// The name of a direction.
pub open spec fn name_of_direction(d: Direction) -> Seq<char> {
    match d {
        Direction::Left => "left"@,
        Direction::Right => "right"@,
        Direction::Up => "up"@,
        Direction::Down => "down"@,
    }
}

pub fn direction_name(direction: Direction) -> (r: &'static str)
    ensures
        r@ == name_of_direction(direction),
{
    match direction {
        Direction::Left => "left",
        Direction::Right => "right",
        Direction::Up => "up",
        Direction::Down => "down",
    }
}

/// An action without an argument.
pub open spec fn plain_action(word: Seq<char>) -> Option<Act> {
    if word == "spawn_terminal"@ {
        Some(Act::SpawnTerminal)
    } else if word == "close"@ {
        Some(Act::CloseWindow)
    } else if word == "equalize"@ {
        Some(Act::Equalize)
    } else if word == "toggle_float"@ {
        Some(Act::ToggleFloat)
    } else if word == "unstack"@ {
        Some(Act::Unstack)
    } else if word == "promote_stack"@ {
        Some(Act::PromoteStack)
    } else if word == "workspace_next"@ {
        Some(Act::WorkspaceNext)
    } else if word == "workspace_prev"@ {
        Some(Act::WorkspacePrev)
    } else if word == "focus_monitor_next"@ {
        Some(Act::FocusMonitorNext)
    } else if word == "focus_monitor_prev"@ {
        Some(Act::FocusMonitorPrev)
    } else if word == "move_to_monitor_next"@ {
        Some(Act::MoveToMonitorNext)
    } else if word == "move_to_monitor_prev"@ {
        Some(Act::MoveToMonitorPrev)
    } else if word == "reload"@ {
        Some(Act::Reload)
    } else if word == "exit"@ {
        Some(Act::Exit)
    } else {
        None
    }
}

/// The direction that an action is given.
pub open spec fn direction_argument(rest: Option<Seq<char>>) -> Option<Direction> {
    match rest {
        Some(s) => direction_named(s),
        None => direction_named(""@),
    }
}

/// The workspace that an action is given.
pub open spec fn target_argument(rest: Option<Seq<char>>) -> Option<WorkspaceTarget> {
    match rest {
        Some(s) => target_named(s),
        None => None,
    }
}

/// The action of a text, or what is wrong with it.
pub open spec fn action_named(text: Seq<char>) -> Result<Act, Seq<char>> {
    let (word, rest) = cut_at_space(text);
    if word == "focus"@ || word == "swap"@ || word == "resize"@ {
        match direction_argument(rest) {
            Some(d) => Ok(
                if word == "focus"@ {
                    Act::Focus(d)
                } else if word == "swap"@ {
                    Act::Swap(d)
                } else {
                    Act::Resize(d)
                },
            ),
            None => Err("invalid direction"@),
        }
    } else if word == "workspace"@ {
        match target_argument(rest) {
            Some(t) => Ok(Act::Workspace(t)),
            None => Err("workspace requires a valid target"@),
        }
    } else if word == "move_to_workspace"@ {
        match target_argument(rest) {
            Some(t) => Ok(Act::MoveToWorkspace(t)),
            None => Err("move_to_workspace requires a valid target"@),
        }
    } else if word == "toggle_special"@ {
        match rest {
            Some(name) => Ok(Act::ToggleSpecial(name)),
            None => Err("toggle_special requires a name"@),
        }
    } else if word == "move_to_special"@ {
        match rest {
            Some(name) => Ok(Act::MoveToSpecial(name)),
            None => Err("move_to_special requires a name"@),
        }
    } else {
        match plain_action(word) {
            Some(a) => Ok(a),
            None => Err("unknown action"@),
        }
    }
}

fn read_plain_action(word: &str) -> (r: Option<Action>)
    ensures
        match r {
            Some(a) => plain_action(word@) == Some(a@),
            None => plain_action(word@) is None,
        },
{
    if same(word, "spawn_terminal") {
        Some(Action::SpawnTerminal)
    } else if same(word, "close") {
        Some(Action::CloseWindow)
    } else if same(word, "equalize") {
        Some(Action::Equalize)
    } else if same(word, "toggle_float") {
        Some(Action::ToggleFloat)
    } else if same(word, "unstack") {
        Some(Action::Unstack)
    } else if same(word, "promote_stack") {
        Some(Action::PromoteStack)
    } else if same(word, "workspace_next") {
        Some(Action::WorkspaceNext)
    } else if same(word, "workspace_prev") {
        Some(Action::WorkspacePrev)
    } else if same(word, "focus_monitor_next") {
        Some(Action::FocusMonitorNext)
    } else if same(word, "focus_monitor_prev") {
        Some(Action::FocusMonitorPrev)
    } else if same(word, "move_to_monitor_next") {
        Some(Action::MoveToMonitorNext)
    } else if same(word, "move_to_monitor_prev") {
        Some(Action::MoveToMonitorPrev)
    } else if same(word, "reload") {
        Some(Action::Reload)
    } else if same(word, "exit") {
        Some(Action::Exit)
    } else {
        None
    }
}

fn read_target(rest: &Option<String>) -> (r: Option<WorkspaceTarget>)
    ensures
        r == target_argument(opt_view(*rest)),
{
    match rest {
        Some(s) => WorkspaceTarget::parse(s.as_str()),
        None => None,
    }
}

fn read_direction(rest: &Option<String>) -> (r: Result<Direction, &'static str>)
    ensures
        match r {
            Ok(d) => direction_argument(opt_view(*rest)) == Some(d),
            Err(e) => direction_argument(opt_view(*rest)) is None && e@ == "invalid direction"@,
        },
{
    match rest {
        Some(s) => parse_direction(s.as_str()),
        None => parse_direction(""),
    }
}

/// Reads an action such as `focus left`.
pub fn parse_action(action: &str) -> (r: Result<Action, &'static str>)
    ensures
        match r {
            Ok(a) => action_named(action@) == Ok::<_, Seq<char>>(a@),
            Err(e) => action_named(action@) == Err::<Act, _>(e@),
        },
{
    let (word, rest) = cut_text(action);
    let w: &str = word.as_str();
    if same(w, "focus") || same(w, "swap") || same(w, "resize") {
        let d: Direction = match read_direction(&rest) {
            Ok(d) => d,
            Err(e) => {
                return Err(e);
            },
        };
        return Ok(
            if same(w, "focus") {
                Action::Focus(d)
            } else if same(w, "swap") {
                Action::Swap(d)
            } else {
                Action::Resize(d)
            },
        );
    }
    if same(w, "workspace") {
        return match read_target(&rest) {
            Some(t) => Ok(Action::Workspace(t)),
            None => Err("workspace requires a valid target"),
        };
    }
    if same(w, "move_to_workspace") {
        return match read_target(&rest) {
            Some(t) => Ok(Action::MoveToWorkspace(t)),
            None => Err("move_to_workspace requires a valid target"),
        };
    }
    if same(w, "toggle_special") {
        return match rest {
            Some(name) => Ok(Action::ToggleSpecial(name)),
            None => Err("toggle_special requires a name"),
        };
    }
    if same(w, "move_to_special") {
        return match rest {
            Some(name) => Ok(Action::MoveToSpecial(name)),
            None => Err("move_to_special requires a name"),
        };
    }
    match read_plain_action(w) {
        Some(a) => Ok(a),
        None => Err("unknown action"),
    }
}

impl Act {
    /// How the action is written.
    pub open spec fn text(self) -> Seq<char> {
        match self {
            Act::SpawnTerminal => "spawn_terminal"@,
            Act::CloseWindow => "close"@,
            Act::Equalize => "equalize"@,
            Act::ToggleFloat => "toggle_float"@,
            Act::Unstack => "unstack"@,
            Act::PromoteStack => "promote_stack"@,
            Act::WorkspaceNext => "workspace_next"@,
            Act::WorkspacePrev => "workspace_prev"@,
            Act::FocusMonitorNext => "focus_monitor_next"@,
            Act::FocusMonitorPrev => "focus_monitor_prev"@,
            Act::MoveToMonitorNext => "move_to_monitor_next"@,
            Act::MoveToMonitorPrev => "move_to_monitor_prev"@,
            Act::Reload => "reload"@,
            Act::Exit => "exit"@,
            Act::Focus(d) => "focus "@ + name_of_direction(d),
            Act::Swap(d) => "swap "@ + name_of_direction(d),
            Act::Resize(d) => "resize "@ + name_of_direction(d),
            Act::Workspace(t) => "workspace "@ + t.text(),
            Act::MoveToWorkspace(t) => "move_to_workspace "@ + t.text(),
            Act::ToggleSpecial(name) => "toggle_special "@ + name,
            Act::MoveToSpecial(name) => "move_to_special "@ + name,
        }
    }
}

fn with_argument(word: &str, argument: &str) -> (r: String)
    ensures
        r@ == word@ + argument@,
{
    let mut out = copy(word);
    out.push_str(argument);
    out
}

/// Writes an action.
pub fn format_action(action: &Action) -> (r: String)
    ensures
        r@ == action@.text(),
{
    match action {
        Action::SpawnTerminal => copy("spawn_terminal"),
        Action::CloseWindow => copy("close"),
        Action::Equalize => copy("equalize"),
        Action::ToggleFloat => copy("toggle_float"),
        Action::Unstack => copy("unstack"),
        Action::PromoteStack => copy("promote_stack"),
        Action::WorkspaceNext => copy("workspace_next"),
        Action::WorkspacePrev => copy("workspace_prev"),
        Action::FocusMonitorNext => copy("focus_monitor_next"),
        Action::FocusMonitorPrev => copy("focus_monitor_prev"),
        Action::MoveToMonitorNext => copy("move_to_monitor_next"),
        Action::MoveToMonitorPrev => copy("move_to_monitor_prev"),
        Action::Reload => copy("reload"),
        Action::Exit => copy("exit"),
        Action::Focus(d) => with_argument("focus ", direction_name(*d)),
        Action::Swap(d) => with_argument("swap ", direction_name(*d)),
        Action::Resize(d) => with_argument("resize ", direction_name(*d)),
        Action::Workspace(t) => with_argument("workspace ", t.to_string().as_str()),
        Action::MoveToWorkspace(t) => with_argument("move_to_workspace ", t.to_string().as_str()),
        Action::ToggleSpecial(name) => with_argument("toggle_special ", name.as_str()),
        Action::MoveToSpecial(name) => with_argument("move_to_special ", name.as_str()),
    }
}

/// Reads a key combination and what it does.
pub fn parse_keybind_and_action(keys: &str, action: &str, mod_key: Modifiers) -> (r: Result<
    LuaKeybind,
    &'static str,
>)
    ensures
        match r {
            Ok(bind) => bind_named(
                lowered_parts(key_parts(keys@)),
                action@,
                mod_key,
            ) == Ok::<_, Seq<char>>(bind@),
            Err(e) => bind_named(
                lowered_parts(key_parts(keys@)),
                action@,
                mod_key,
            ) == Err::<Bind, _>(e@),
        },
        all_ascii_parts(key_parts(keys@)) ==> lowered_parts(key_parts(keys@))
            == ascii_lowered_parts(key_parts(keys@)),
{
    let (modifiers, key) = match parse_key_spec(keys, mod_key) {
        Ok(combination) => combination,
        Err(e) => {
            return Err(e);
        },
    };
    match parse_action(action) {
        Ok(action) => Ok(LuaKeybind { modifiers, key, action }),
        Err(e) => Err(e),
    }
}

/// The binding of a key combination to an action, or what is wrong.
pub open spec fn bind_named(
    parts: Seq<Seq<char>>,
    action: Seq<char>,
    mod_key: Modifiers,
) -> Result<Bind, Seq<char>> {
    match combination(parts, mod_key) {
        Err(e) => Err(e),
        Ok((modifiers, key)) => match action_named(action) {
            Ok(action) => Ok(Bind { modifiers, key, action }),
            Err(e) => Err(e),
        },
    }
}

/// Reads a key combination and what it does.
pub fn parse_keybind(keys: &str, action: &str, mod_key: Modifiers) -> (r: Result<
    LuaKeybind,
    &'static str,
>)
    ensures
        match r {
            Ok(bind) => bind_named(
                lowered_parts(key_parts(keys@)),
                action@,
                mod_key,
            ) == Ok::<_, Seq<char>>(bind@),
            Err(e) => bind_named(
                lowered_parts(key_parts(keys@)),
                action@,
                mod_key,
            ) == Err::<Bind, _>(e@),
        },
        all_ascii_parts(key_parts(keys@)) ==> lowered_parts(key_parts(keys@))
            == ascii_lowered_parts(key_parts(keys@)),
{
    parse_keybind_and_action(keys, action, mod_key)
}

// --- Defaults ---

/// The key of a digit.
pub open spec fn digit_key(n: u8) -> Key {
    match n {
        1 => Key::Num1,
        2 => Key::Num2,
        3 => Key::Num3,
        4 => Key::Num4,
        5 => Key::Num5,
        6 => Key::Num6,
        7 => Key::Num7,
        8 => Key::Num8,
        9 => Key::Num9,
        _ => Key::Num0,
    }
}

/// The bindings for everything but workspaces.
pub open spec fn basic_binds(m: Modifiers) -> Seq<Bind> {
    let shift = Modifiers { bits: SHIFT_BIT };
    let ms = m.with(shift);
    let mc = m.with(Modifiers { bits: CONTROL_BIT });
    let os = Modifiers { bits: OPTION_BIT }.with(shift);
    seq![
        Bind { modifiers: m, key: Key::Return, action: Act::SpawnTerminal },
        Bind { modifiers: ms, key: Key::Q, action: Act::CloseWindow },
        Bind { modifiers: m, key: Key::E, action: Act::Equalize },
        Bind { modifiers: ms, key: Key::Space, action: Act::ToggleFloat },
        Bind { modifiers: ms, key: Key::U, action: Act::Unstack },
        Bind { modifiers: os, key: Key::Period, action: Act::PromoteStack },
        Bind { modifiers: m, key: Key::H, action: Act::Focus(Direction::Left) },
        Bind { modifiers: m, key: Key::J, action: Act::Focus(Direction::Down) },
        Bind { modifiers: m, key: Key::K, action: Act::Focus(Direction::Up) },
        Bind { modifiers: m, key: Key::L, action: Act::Focus(Direction::Right) },
        Bind { modifiers: m, key: Key::Left, action: Act::Focus(Direction::Left) },
        Bind { modifiers: m, key: Key::Down, action: Act::Focus(Direction::Down) },
        Bind { modifiers: m, key: Key::Up, action: Act::Focus(Direction::Up) },
        Bind { modifiers: m, key: Key::Right, action: Act::Focus(Direction::Right) },
        Bind { modifiers: ms, key: Key::H, action: Act::Swap(Direction::Left) },
        Bind { modifiers: ms, key: Key::J, action: Act::Swap(Direction::Down) },
        Bind { modifiers: ms, key: Key::K, action: Act::Swap(Direction::Up) },
        Bind { modifiers: ms, key: Key::L, action: Act::Swap(Direction::Right) },
        Bind { modifiers: ms, key: Key::Left, action: Act::Swap(Direction::Left) },
        Bind { modifiers: ms, key: Key::Down, action: Act::Swap(Direction::Down) },
        Bind { modifiers: ms, key: Key::Up, action: Act::Swap(Direction::Up) },
        Bind { modifiers: ms, key: Key::Right, action: Act::Swap(Direction::Right) },
        Bind { modifiers: mc, key: Key::H, action: Act::Resize(Direction::Left) },
        Bind { modifiers: mc, key: Key::J, action: Act::Resize(Direction::Down) },
        Bind { modifiers: mc, key: Key::K, action: Act::Resize(Direction::Up) },
        Bind { modifiers: mc, key: Key::L, action: Act::Resize(Direction::Right) },
    ]
}

/// The bindings for a workspace: to go there and to move a window there. The
/// key of the tenth workspace is 0.
pub open spec fn workspace_binds(m: Modifiers, n: int) -> Seq<Bind> {
    let key = digit_key((n % 10) as u8);
    let t = WorkspaceTarget::Numbered(n as u8);
    seq![
        Bind { modifiers: m, key, action: Act::Workspace(t) },
        Bind {
            modifiers: m.with(Modifiers { bits: SHIFT_BIT }),
            key,
            action: Act::MoveToWorkspace(t),
        },
    ]
}

/// The bindings for the workspaces up to `n`.
pub open spec fn workspace_binds_upto(m: Modifiers, n: int) -> Seq<Bind>
    decreases n,
{
    if n <= 0 {
        seq![]
    } else {
        workspace_binds_upto(m, n - 1) + workspace_binds(m, n)
    }
}

/// The bindings that hold if the configuration has none.
pub open spec fn default_binds(m: Modifiers) -> Seq<Bind> {
    basic_binds(m) + workspace_binds_upto(m, 10)
}

pub fn key_of_digit(n: u8) -> (r: Key)
    ensures
        r == digit_key(n),
{
    match n {
        1 => Key::Num1,
        2 => Key::Num2,
        3 => Key::Num3,
        4 => Key::Num4,
        5 => Key::Num5,
        6 => Key::Num6,
        7 => Key::Num7,
        8 => Key::Num8,
        9 => Key::Num9,
        _ => Key::Num0,
    }
}

pub fn add_bind(binds: &mut Vec<LuaKeybind>, modifiers: Modifiers, key: Key, action: Action)
    ensures
        bind_views(final(binds)@) == bind_views(old(binds)@).push(
            Bind { modifiers, key, action: action@ },
        ),
{
    binds.push(LuaKeybind { modifiers, key, action });
    assert(bind_views(binds@) =~= bind_views(old(binds)@).push(
        Bind { modifiers, key, action: action@ },
    ));
}

fn basic_keybinds(m: Modifiers) -> (r: Vec<LuaKeybind>)
    ensures
        bind_views(r@) == basic_binds(m),
{
    let ms: Modifiers = m.union(Modifiers::shift());
    let mc: Modifiers = m.union(Modifiers::control());
    let os: Modifiers = Modifiers::option().union(Modifiers::shift());
    let mut binds: Vec<LuaKeybind> = Vec::new();
    assert(bind_views(binds@) =~= seq![]);
    add_bind(&mut binds, m, Key::Return, Action::SpawnTerminal);
    add_bind(&mut binds, ms, Key::Q, Action::CloseWindow);
    add_bind(&mut binds, m, Key::E, Action::Equalize);
    add_bind(&mut binds, ms, Key::Space, Action::ToggleFloat);
    add_bind(&mut binds, ms, Key::U, Action::Unstack);
    add_bind(&mut binds, os, Key::Period, Action::PromoteStack);
    add_bind(&mut binds, m, Key::H, Action::Focus(Direction::Left));
    add_bind(&mut binds, m, Key::J, Action::Focus(Direction::Down));
    add_bind(&mut binds, m, Key::K, Action::Focus(Direction::Up));
    add_bind(&mut binds, m, Key::L, Action::Focus(Direction::Right));
    add_bind(&mut binds, m, Key::Left, Action::Focus(Direction::Left));
    add_bind(&mut binds, m, Key::Down, Action::Focus(Direction::Down));
    add_bind(&mut binds, m, Key::Up, Action::Focus(Direction::Up));
    add_bind(&mut binds, m, Key::Right, Action::Focus(Direction::Right));
    add_bind(&mut binds, ms, Key::H, Action::Swap(Direction::Left));
    add_bind(&mut binds, ms, Key::J, Action::Swap(Direction::Down));
    add_bind(&mut binds, ms, Key::K, Action::Swap(Direction::Up));
    add_bind(&mut binds, ms, Key::L, Action::Swap(Direction::Right));
    add_bind(&mut binds, ms, Key::Left, Action::Swap(Direction::Left));
    add_bind(&mut binds, ms, Key::Down, Action::Swap(Direction::Down));
    add_bind(&mut binds, ms, Key::Up, Action::Swap(Direction::Up));
    add_bind(&mut binds, ms, Key::Right, Action::Swap(Direction::Right));
    add_bind(&mut binds, mc, Key::H, Action::Resize(Direction::Left));
    add_bind(&mut binds, mc, Key::J, Action::Resize(Direction::Down));
    add_bind(&mut binds, mc, Key::K, Action::Resize(Direction::Up));
    add_bind(&mut binds, mc, Key::L, Action::Resize(Direction::Right));
    assert(bind_views(binds@) =~= basic_binds(m));
    binds
}

/// The bindings that hold if the configuration has none.
pub fn default_keybinds(settings: &Settings) -> (r: Vec<LuaKeybind>)
    ensures
        bind_views(r@) == default_binds(settings@.mod_key),
{
    let m: Modifiers = settings.mod_key;
    let ms: Modifiers = m.union(Modifiers::shift());
    let mut binds = basic_keybinds(m);
    let ghost basic = basic_binds(m);
    let mut n: u8 = 1;
    assert(basic + workspace_binds_upto(m, 0) =~= basic);
    while n <= 10
        invariant
            1 <= n <= 11,
            ms == m.with(Modifiers { bits: SHIFT_BIT }),
            bind_views(binds@) == basic + workspace_binds_upto(m, n - 1),
        decreases 11 - n,
    {
        let key: Key = key_of_digit(n % 10);
        let t: WorkspaceTarget = WorkspaceTarget::Numbered(n);
        add_bind(&mut binds, m, key, Action::Workspace(t));
        add_bind(&mut binds, ms, key, Action::MoveToWorkspace(t));
        assert(bind_views(binds@) =~= basic + workspace_binds_upto(m, n as int));
        n = n + 1;
    }
    binds
}

// --- Quoting ---

/// A character as it stands between quotes.
pub open spec fn quoted_char(c: char) -> Seq<char> {
    if c == '\\' || c == '"' {
        seq!['\\', c]
    } else {
        seq![c]
    }
}

/// A text as it stands between quotes.
pub open spec fn quoted_chars(s: Seq<char>) -> Seq<char>
    decreases s.len(),
{
    if s.len() == 0 {
        seq![]
    } else {
        quoted_chars(s.drop_last()) + quoted_char(s.last())
    }
}

/// A text as a Lua string: between quotes, with a backslash before each quote
/// and each backslash.
pub open spec fn quoted(s: Seq<char>) -> Seq<char> {
    seq!['"'] + quoted_chars(s) + seq!['"']
}

/// Writes a text as a Lua string.
pub fn lua_string(s: &str) -> (r: String)
    ensures
        r@ == quoted(s@),
{
    let v = chars_of(s);
    let mut out = String::new();
    out.push('"');
    let mut i: usize = 0;
    assert(out@ =~= seq!['"'] + quoted_chars(v@.take(0)));
    while i < v.len()
        invariant
            i <= v@.len(),
            out@ == seq!['"'] + quoted_chars(v@.take(i as int)),
        decreases v.len() - i,
    {
        let c: char = v[i];
        assert(v@.take(i + 1).drop_last() =~= v@.take(i as int));
        if c == '\\' || c == '"' {
            out.push('\\');
        }
        out.push(c);
        i = i + 1;
        assert(out@ =~= seq!['"'] + quoted_chars(v@.take(i as int)));
    }
    assert(v@.take(v@.len() as int) =~= v@);
    out.push('"');
    assert(out@ =~= quoted(s@));
    out
}

/// The text between the quotes of a Lua string.
pub open spec fn unquoted(s: Seq<char>) -> Seq<char>
    decreases s.len(),
{
    if s.len() == 0 {
        seq![]
    } else if s[0] == '\\' && s.len() > 1 {
        seq![s[1]] + unquoted(s.skip(2))
    } else {
        seq![s[0]] + unquoted(s.skip(1))
    }
}

/// Dropping one backslash of each pair gives a quoted text back, and no quote
/// inside ends it early: every quote has a backslash before it.
pub proof fn law_quoting_is_undone(s: Seq<char>)
    ensures
        unquoted(quoted_chars(s)) == s,
    decreases s.len(),
{
    lemma_quoted_front(s);
    if s.len() > 0 {
        law_quoting_is_undone(s.skip(1));
        let rest = quoted_chars(s.skip(1));
        let all = quoted_char(s[0]) + rest;
        if s[0] == '\\' || s[0] == '"' {
            assert(all.skip(2) =~= rest);
        } else {
            assert(all.skip(1) =~= rest);
        }
        assert(unquoted(all) =~= seq![s[0]] + s.skip(1));
        assert(seq![s[0]] + s.skip(1) =~= s);
    } else {
        assert(unquoted(quoted_chars(s)) =~= s);
    }
}

proof fn lemma_quoted_front(s: Seq<char>)
    ensures
        s.len() > 0 ==> quoted_chars(s) == quoted_char(s[0]) + quoted_chars(s.skip(1)),
    decreases s.len(),
{
    if s.len() == 1 {
        assert(s.drop_last() =~= seq![]);
        assert(s.skip(1) =~= seq![]);
        assert(quoted_chars(s) =~= quoted_char(s[0]) + quoted_chars(s.skip(1)));
    } else if s.len() > 1 {
        lemma_quoted_front(s.drop_last());
        assert(s.drop_last().skip(1) =~= s.skip(1).drop_last());
        assert(s.skip(1).last() == s.last());
        assert(quoted_chars(s) =~= quoted_char(s[0]) + quoted_chars(s.skip(1)));
    }
}

// --- Reading back ---

/// A word without a space is cut off as it is.
proof fn lemma_cut(word: Seq<char>, rest: Seq<char>)
    requires
        !word.contains(' '),
    ensures
        cut_at_space(word + seq![' '] + rest) == (word, Some(rest)),
        cut_at_space(word) == (word, None::<Seq<char>>),
    decreases word.len(),
{
    let all = word + seq![' '] + rest;
    if word.len() == 0 {
        assert(all[0] == ' ');
        assert(all.skip(1) =~= rest);
        assert(cut_at_space(all).0 =~= word);
        assert(cut_at_space(word).0 =~= word);
    } else {
        let tail = word.skip(1);
        assert(word.contains(word[0]));
        assert(!tail.contains(' ')) by {
            if tail.contains(' ') {
                let i = choose|i: int| 0 <= i < tail.len() && tail[i] == ' ';
                assert(word[i + 1] == ' ');
            }
        }
        lemma_cut(tail, rest);
        assert(all[0] == word[0]);
        assert(all.skip(1) =~= tail + seq![' '] + rest);
        assert(seq![word[0]] + tail =~= word);
    }
}

/// Number `i` among the words that name actions.
spec fn action_word(i: int) -> Seq<char> {
    if i == 0 {
        "focus"@
    } else if i == 1 {
        "swap"@
    } else if i == 2 {
        "resize"@
    } else if i == 3 {
        "workspace"@
    } else if i == 4 {
        "move_to_workspace"@
    } else if i == 5 {
        "toggle_special"@
    } else if i == 6 {
        "move_to_special"@
    } else if i == 7 {
        "spawn_terminal"@
    } else if i == 8 {
        "close"@
    } else if i == 9 {
        "equalize"@
    } else if i == 10 {
        "toggle_float"@
    } else if i == 11 {
        "unstack"@
    } else if i == 12 {
        "promote_stack"@
    } else if i == 13 {
        "workspace_next"@
    } else if i == 14 {
        "workspace_prev"@
    } else if i == 15 {
        "focus_monitor_next"@
    } else if i == 16 {
        "focus_monitor_prev"@
    } else if i == 17 {
        "move_to_monitor_next"@
    } else if i == 18 {
        "move_to_monitor_prev"@
    } else if i == 19 {
        "reload"@
    } else if i == 20 {
        "exit"@
    } else {
        ""@
    }
}

/// The words that name actions have no space and differ from each other.
#[verifier::rlimit(50)]
proof fn lemma_action_words()
    ensures
        forall|i: int| 0 <= i < 21 ==> !(#[trigger] action_word(i)).contains(' '),
        forall|i: int, j: int|
            0 <= i < 21 && 0 <= j < 21 && i != j ==> #[trigger] action_word(i)
                != #[trigger] action_word(j),
{
    reveal_strlit("focus");
    reveal_strlit("swap");
    reveal_strlit("resize");
    reveal_strlit("workspace");
    reveal_strlit("move_to_workspace");
    reveal_strlit("toggle_special");
    reveal_strlit("move_to_special");
    reveal_strlit("spawn_terminal");
    reveal_strlit("close");
    reveal_strlit("equalize");
    reveal_strlit("toggle_float");
    reveal_strlit("unstack");
    reveal_strlit("promote_stack");
    reveal_strlit("workspace_next");
    reveal_strlit("workspace_prev");
    reveal_strlit("focus_monitor_next");
    reveal_strlit("focus_monitor_prev");
    reveal_strlit("move_to_monitor_next");
    reveal_strlit("move_to_monitor_prev");
    reveal_strlit("reload");
    reveal_strlit("exit");
    assert("focus"@.len() == 5);
    assert("swap"@.len() == 4);
    assert("resize"@.len() == 6);
    assert("workspace"@.len() == 9);
    assert("move_to_workspace"@.len() == 17);
    assert("toggle_special"@.len() == 14);
    assert("move_to_special"@.len() == 15);
    assert("spawn_terminal"@.len() == 14);
    assert("close"@.len() == 5);
    assert("equalize"@.len() == 8);
    assert("toggle_float"@.len() == 12);
    assert("unstack"@.len() == 7);
    assert("promote_stack"@.len() == 13);
    assert("workspace_next"@.len() == 14);
    assert("workspace_prev"@.len() == 14);
    assert("focus_monitor_next"@.len() == 18);
    assert("focus_monitor_prev"@.len() == 18);
    assert("move_to_monitor_next"@.len() == 20);
    assert("move_to_monitor_prev"@.len() == 20);
    assert("reload"@.len() == 6);
    assert("exit"@.len() == 4);
    assert("focus"@[0] != "close"@[0]);
    assert("swap"@[0] != "exit"@[0]);
    assert("resize"@[2] != "reload"@[2]);
    assert("toggle_special"@[0] != "spawn_terminal"@[0]);
    assert("toggle_special"@[0] != "workspace_next"@[0]);
    assert("toggle_special"@[0] != "workspace_prev"@[0]);
    assert("spawn_terminal"@[0] != "workspace_next"@[0]);
    assert("spawn_terminal"@[0] != "workspace_prev"@[0]);
    assert("workspace_next"@[10] != "workspace_prev"@[10]);
    assert("focus_monitor_next"@[14] != "focus_monitor_prev"@[14]);
    assert("move_to_monitor_next"@[16] != "move_to_monitor_prev"@[16]);
}

/// A written action is read back, if its workspace is one that can be named.
pub proof fn law_action_round_trip(a: Act)
    requires
        match a {
            Act::Workspace(t) => t.is_regular(),
            Act::MoveToWorkspace(t) => t.is_regular(),
            _ => true,
        },
    ensures
        action_named(a.text()) == Ok::<_, Seq<char>>(a),
{
    lemma_action_words();
    lemma_spaced_words();
    assert forall|i: int| 0 <= i < 21 implies #[trigger] cut_at_space(action_word(i)) == (
        action_word(i),
        None::<Seq<char>>,
    ) by {
        lemma_cut(action_word(i), seq![]);
    }
    assert(action_word(0) == "focus"@);
    assert(action_word(1) == "swap"@);
    assert(action_word(2) == "resize"@);
    assert(action_word(3) == "workspace"@);
    assert(action_word(4) == "move_to_workspace"@);
    assert(action_word(5) == "toggle_special"@);
    assert(action_word(6) == "move_to_special"@);
    assert(action_word(7) == "spawn_terminal"@);
    assert(action_word(8) == "close"@);
    assert(action_word(9) == "equalize"@);
    assert(action_word(10) == "toggle_float"@);
    assert(action_word(11) == "unstack"@);
    assert(action_word(12) == "promote_stack"@);
    assert(action_word(13) == "workspace_next"@);
    assert(action_word(14) == "workspace_prev"@);
    assert(action_word(15) == "focus_monitor_next"@);
    assert(action_word(16) == "focus_monitor_prev"@);
    assert(action_word(17) == "move_to_monitor_next"@);
    assert(action_word(18) == "move_to_monitor_prev"@);
    assert(action_word(19) == "reload"@);
    assert(action_word(20) == "exit"@);
    match a {
        Act::Focus(d) | Act::Swap(d) | Act::Resize(d) => {
            lemma_direction_round_trip(d);
            lemma_cut("focus"@, name_of_direction(d));
            lemma_cut("swap"@, name_of_direction(d));
            lemma_cut("resize"@, name_of_direction(d));
        },
        Act::Workspace(t) | Act::MoveToWorkspace(t) => {
            law_target_round_trip(t);
            lemma_cut("workspace"@, t.text());
            lemma_cut("move_to_workspace"@, t.text());
        },
        Act::ToggleSpecial(name) | Act::MoveToSpecial(name) => {
            lemma_cut("toggle_special"@, name);
            lemma_cut("move_to_special"@, name);
        },
        _ => {},
    }
}

proof fn lemma_spaced_words()
    ensures
        "focus "@ == "focus"@ + seq![' '],
        "swap "@ == "swap"@ + seq![' '],
        "resize "@ == "resize"@ + seq![' '],
        "workspace "@ == "workspace"@ + seq![' '],
        "move_to_workspace "@ == "move_to_workspace"@ + seq![' '],
        "toggle_special "@ == "toggle_special"@ + seq![' '],
        "move_to_special "@ == "move_to_special"@ + seq![' '],
{
    reveal_strlit("focus");
    reveal_strlit("focus ");
    assert("focus "@ =~= "focus"@ + seq![' ']);
    reveal_strlit("swap");
    reveal_strlit("swap ");
    assert("swap "@ =~= "swap"@ + seq![' ']);
    reveal_strlit("resize");
    reveal_strlit("resize ");
    assert("resize "@ =~= "resize"@ + seq![' ']);
    reveal_strlit("workspace");
    reveal_strlit("workspace ");
    assert("workspace "@ =~= "workspace"@ + seq![' ']);
    reveal_strlit("move_to_workspace");
    reveal_strlit("move_to_workspace ");
    assert("move_to_workspace "@ =~= "move_to_workspace"@ + seq![' ']);
    reveal_strlit("toggle_special");
    reveal_strlit("toggle_special ");
    assert("toggle_special "@ =~= "toggle_special"@ + seq![' ']);
    reveal_strlit("move_to_special");
    reveal_strlit("move_to_special ");
    assert("move_to_special "@ =~= "move_to_special"@ + seq![' ']);
}

proof fn lemma_direction_round_trip(d: Direction)
    ensures
        direction_named(name_of_direction(d)) == Some(d),
{
    reveal_strlit("left");
    reveal_strlit("right");
    reveal_strlit("up");
    reveal_strlit("down");
    assert("left"@.len() == 4 && "right"@.len() == 5 && "up"@.len() == 2 && "down"@.len() == 4);
    assert("left"@[0] != "down"@[0]);
}

/// Names of keys are no modifiers, have no plus sign and no space.
#[verifier::rlimit(50)]
proof fn lemma_key_words(key: Key, mod_key: Modifiers)
    requires
        has_readable_name(key),
    ensures
        modifiers_named(name_of_key(key), mod_key) is None,
        is_plain_word(name_of_key(key)),
{
    reveal_strlit("mod");
    reveal_strlit("shift");
    reveal_strlit("ctrl");
    reveal_strlit("control");
    reveal_strlit("option");
    reveal_strlit("alt");
    reveal_strlit("command");
    reveal_strlit("cmd");
    reveal_strlit("return");
    reveal_strlit("space");
    reveal_strlit("tab");
    reveal_strlit("escape");
    reveal_strlit("delete");
    reveal_strlit("grave");
    reveal_strlit("minus");
    reveal_strlit("equal");
    reveal_strlit("comma");
    reveal_strlit("period");
    reveal_strlit("left");
    reveal_strlit("right");
    reveal_strlit("up");
    reveal_strlit("down");
    assert("mod"@.len() == 3);
    assert("shift"@.len() == 5);
    assert("ctrl"@.len() == 4);
    assert("control"@.len() == 7);
    assert("option"@.len() == 6);
    assert("alt"@.len() == 3);
    assert("command"@.len() == 7);
    assert("cmd"@.len() == 3);
    assert("return"@.len() == 6);
    assert("space"@.len() == 5);
    assert("tab"@.len() == 3);
    assert("escape"@.len() == 6);
    assert("delete"@.len() == 6);
    assert("grave"@.len() == 5);
    assert("minus"@.len() == 5);
    assert("equal"@.len() == 5);
    assert("comma"@.len() == 5);
    assert("period"@.len() == 6);
    assert("left"@.len() == 4);
    assert("right"@.len() == 5);
    assert("up"@.len() == 2);
    assert("down"@.len() == 4);
    assert("return"@[0] != "option"@[0]);
    assert("space"@[1] != "shift"@[1]);
    assert("tab"@[0] != "mod"@[0]);
    assert("tab"@[0] != "alt"@[0]);
    assert("tab"@[0] != "cmd"@[0]);
    assert("escape"@[0] != "option"@[0]);
    assert("delete"@[0] != "option"@[0]);
    assert("grave"@[0] != "shift"@[0]);
    assert("minus"@[0] != "shift"@[0]);
    assert("equal"@[0] != "shift"@[0]);
    assert("comma"@[0] != "shift"@[0]);
    assert("period"@[0] != "option"@[0]);
    assert("left"@[0] != "ctrl"@[0]);
    assert("right"@[0] != "shift"@[0]);
    assert("down"@[0] != "ctrl"@[0]);
}

/// Words of which a written key combination is made.
spec fn is_plain_word(s: Seq<char>) -> bool {
    s.len() > 0 && forall|i: int|
        0 <= i < s.len() ==> (#[trigger] s[i]) != '+' && !is_space(s[i]) && s[i] as u32 <= 127
            && !is_ascii_upper(s[i])
}

proof fn lemma_modifier_words(mod_key: Modifiers)
    ensures
        modifiers_named("mod"@, mod_key) == Some(mod_key),
        modifiers_named("shift"@, mod_key) == Some(Modifiers { bits: SHIFT_BIT }),
        modifiers_named("ctrl"@, mod_key) == Some(Modifiers { bits: CONTROL_BIT }),
        modifiers_named("option"@, mod_key) == Some(Modifiers { bits: OPTION_BIT }),
        modifiers_named("command"@, mod_key) == Some(Modifiers { bits: COMMAND_BIT }),
        is_plain_word("mod"@),
        is_plain_word("shift"@),
        is_plain_word("ctrl"@),
        is_plain_word("option"@),
        is_plain_word("command"@),
{
    reveal_strlit("mod");
    reveal_strlit("shift");
    reveal_strlit("ctrl");
    reveal_strlit("control");
    reveal_strlit("option");
    reveal_strlit("alt");
    reveal_strlit("command");
    reveal_strlit("cmd");
    assert("mod"@.len() == 3);
    assert("shift"@.len() == 5);
    assert("ctrl"@.len() == 4);
    assert("control"@.len() == 7);
    assert("option"@.len() == 6);
    assert("alt"@.len() == 3);
    assert("command"@.len() == 7);
    assert("cmd"@.len() == 3);
    assert("mod"@[0] != "alt"@[0]);
    assert("mod"@[0] != "cmd"@[0]);
    assert("control"@[2] != "command"@[2]);
    assert("alt"@[0] != "cmd"@[0]);
}

/// One part more adds its modifiers.
proof fn lemma_read_modifier(
    parts: Seq<Seq<char>>,
    wanted: bool,
    word: Seq<char>,
    more: Modifiers,
    mod_key: Modifiers,
    so_far: Modifiers,
)
    requires
        parts_read(parts, mod_key) == Some((so_far, None::<Key>)),
        modifiers_named(word, mod_key) == Some(more),
    ensures
        parts_read(parts + (if wanted { seq![word] } else { seq![] }), mod_key) == Some(
            (
                if wanted {
                    so_far.with(more)
                } else {
                    so_far
                },
                None::<Key>,
            ),
        ),
{
    let all = parts + (if wanted {
        seq![word]
    } else {
        seq![]
    });
    if wanted {
        assert(all.drop_last() =~= parts);
        assert(all.last() == word);
    } else {
        assert(all =~= parts);
    }
}

proof fn lemma_combination_bits(m: u32, k: u32)
    requires
        m <= 15,
    ensures
        ({
            let r0: u32 = if m & k == k { 0u32 | k } else { 0u32 };
            let r1: u32 = if m & 1u32 == 1u32 { r0 | 1u32 } else { r0 };
            let r2: u32 = if m & 2u32 == 2u32 && k != 2u32 { r1 | 2u32 } else { r1 };
            let r3: u32 = if m & 4u32 == 4u32 && k != 4u32 { r2 | 4u32 } else { r2 };
            let r4: u32 = if m & 8u32 == 8u32 && k != 8u32 { r3 | 8u32 } else { r3 };
            r4 == m
        }),
{
    let r0: u32 = if m & k == k { 0u32 | k } else { 0u32 };
    let r1: u32 = if m & 1u32 == 1u32 { r0 | 1u32 } else { r0 };
    let r2: u32 = if m & 2u32 == 2u32 && k != 2u32 { r1 | 2u32 } else { r1 };
    let r3: u32 = if m & 4u32 == 4u32 && k != 4u32 { r2 | 4u32 } else { r2 };
    let r4: u32 = if m & 8u32 == 8u32 && k != 8u32 { r3 | 8u32 } else { r3 };
    assert(r4 == m) by (bit_vector)
        requires
            m <= 15,
            r0 == (if m & k == k { 0u32 | k } else { 0u32 }),
            r1 == (if m & 1u32 == 1u32 { r0 | 1u32 } else { r0 }),
            r2 == (if m & 2u32 == 2u32 && k != 2u32 { r1 | 2u32 } else { r1 }),
            r3 == (if m & 4u32 == 4u32 && k != 4u32 { r2 | 4u32 } else { r2 }),
            r4 == (if m & 8u32 == 8u32 && k != 8u32 { r3 | 8u32 } else { r3 }),
    ;
}

proof fn lemma_combination_read(modifiers: Modifiers, key: Key, mod_key: Modifiers)
    requires
        has_readable_name(key),
        modifiers.bits <= 15,
    ensures
        combination(spec_parts(modifiers, key, mod_key), mod_key) == Ok::<_, Seq<char>>(
            (modifiers, key),
        ),
{
    let parts = spec_parts(modifiers, key, mod_key);
    let shift = Modifiers { bits: SHIFT_BIT };
    let control = Modifiers { bits: CONTROL_BIT };
    let option = Modifiers { bits: OPTION_BIT };
    let command = Modifiers { bits: COMMAND_BIT };
    lemma_modifier_words(mod_key);
    lemma_key_words(key, mod_key);
    law_key_name_round_trip(key);
    let b0 = modifiers.has(mod_key);
    let b1 = modifiers.has(shift);
    let b2 = modifiers.has(control) && mod_key != control;
    let b3 = modifiers.has(option) && mod_key != option;
    let b4 = modifiers.has(command) && mod_key != command;
    let none: Seq<Seq<char>> = seq![];
    let m0 = Modifiers { bits: 0 };
    let p0 = none + (if b0 { seq!["mod"@] } else { seq![] });
    let m1 = if b0 { m0.with(mod_key) } else { m0 };
    let p1 = p0 + (if b1 { seq!["shift"@] } else { seq![] });
    let m2 = if b1 { m1.with(shift) } else { m1 };
    let p2 = p1 + (if b2 { seq!["ctrl"@] } else { seq![] });
    let m3 = if b2 { m2.with(control) } else { m2 };
    let p3 = p2 + (if b3 { seq!["option"@] } else { seq![] });
    let m4 = if b3 { m3.with(option) } else { m3 };
    let p4 = p3 + (if b4 { seq!["command"@] } else { seq![] });
    let m5 = if b4 { m4.with(command) } else { m4 };
    lemma_read_modifier(none, b0, "mod"@, mod_key, mod_key, m0);
    lemma_read_modifier(p0, b1, "shift"@, shift, mod_key, m1);
    lemma_read_modifier(p1, b2, "ctrl"@, control, mod_key, m2);
    lemma_read_modifier(p2, b3, "option"@, option, mod_key, m3);
    lemma_read_modifier(p3, b4, "command"@, command, mod_key, m4);
    assert(parts == p4 + seq![name_of_key(key)]) by {
        assert(none + (if b0 { seq!["mod"@] } else { seq![] }) =~= (if b0 {
            seq!["mod"@]
        } else {
            seq![]
        }));
    }
    assert(parts.drop_last() =~= p4);
    assert(parts.last() == name_of_key(key));
    lemma_combination_bits(modifiers.bits, mod_key.bits);
    assert(m5 == modifiers);
}

/// All words are plain.
spec fn all_plain(parts: Seq<Seq<char>>) -> bool {
    forall|i: int| 0 <= i < parts.len() ==> is_plain_word(#[trigger] parts[i])
}

proof fn lemma_plain_more(parts: Seq<Seq<char>>, wanted: bool, word: Seq<char>)
    requires
        all_plain(parts),
        is_plain_word(word),
    ensures
        all_plain(parts + (if wanted { seq![word] } else { seq![] })),
{
}

proof fn lemma_spec_parts_plain(modifiers: Modifiers, key: Key, mod_key: Modifiers)
    requires
        has_readable_name(key),
    ensures
        all_plain(spec_parts(modifiers, key, mod_key)),
{
    let shift = Modifiers { bits: SHIFT_BIT };
    let control = Modifiers { bits: CONTROL_BIT };
    let option = Modifiers { bits: OPTION_BIT };
    let command = Modifiers { bits: COMMAND_BIT };
    lemma_modifier_words(mod_key);
    lemma_key_words(key, mod_key);
    let b0 = modifiers.has(mod_key);
    let b1 = modifiers.has(shift);
    let b2 = modifiers.has(control) && mod_key != control;
    let b3 = modifiers.has(option) && mod_key != option;
    let b4 = modifiers.has(command) && mod_key != command;
    let p0: Seq<Seq<char>> = if b0 { seq!["mod"@] } else { seq![] };
    let p1 = p0 + (if b1 { seq!["shift"@] } else { seq![] });
    let p2 = p1 + (if b2 { seq!["ctrl"@] } else { seq![] });
    let p3 = p2 + (if b3 { seq!["option"@] } else { seq![] });
    let p4 = p3 + (if b4 { seq!["command"@] } else { seq![] });
    assert(all_plain(p0));
    lemma_plain_more(p0, b1, "shift"@);
    lemma_plain_more(p1, b2, "ctrl"@);
    lemma_plain_more(p2, b3, "option"@);
    lemma_plain_more(p3, b4, "command"@);
    lemma_plain_more(p4, true, name_of_key(key));
}

/// Plain words joined with plus signs are told apart again.
proof fn lemma_plain_parts(parts: Seq<Seq<char>>)
    requires
        parts.len() > 0,
        all_plain(parts),
    ensures
        key_parts(joined(parts, "+"@)) == parts,
{
    reveal_strlit("+");
    assert("+"@ =~= seq!['+']);
    assert forall|i: int| 0 <= i < parts.len() implies !(#[trigger] parts[i]).contains('+') by {
        assert(is_plain_word(parts[i]));
    }
    law_split_undoes_join(parts, '+');
    let raw = split_on(joined(parts, "+"@), '+');
    assert forall|i: int| 0 <= i < parts.len() implies trimmed(#[trigger] raw[i]) == parts[i] by {
        assert(is_plain_word(parts[i]));
        lemma_trim_nothing(parts[i]);
    }
    assert(key_parts(joined(parts, "+"@)) =~= parts);
}

/// A written key combination is read back, if the key has a name that can be
/// read and the modifiers are Shift, Control, Option and Command: it consists of
/// its parts again, these are ASCII texts in lower case, and they are read as the
/// combination.
pub proof fn law_combination_round_trip(modifiers: Modifiers, key: Key, mod_key: Modifiers)
    requires
        has_readable_name(key),
        modifiers.bits <= 15,
    ensures
        key_parts(joined(spec_parts(modifiers, key, mod_key), "+"@)) == spec_parts(
            modifiers,
            key,
            mod_key,
        ),
        ({
            let written = key_parts(joined(spec_parts(modifiers, key, mod_key), "+"@));
            &&& all_ascii_parts(written)
            &&& combination(ascii_lowered_parts(written), mod_key) == Ok::<_, Seq<char>>(
                (modifiers, key),
            )
        }),
{
    let parts = spec_parts(modifiers, key, mod_key);
    lemma_combination_read(modifiers, key, mod_key);
    lemma_spec_parts_plain(modifiers, key, mod_key);
    lemma_plain_parts(parts);
    assert forall|i: int| 0 <= i < parts.len() implies all_ascii(#[trigger] parts[i])
        && ascii_lowered(parts[i]) == parts[i] by {
        assert(is_plain_word(parts[i]));
        assert(ascii_lowered(parts[i]) =~= parts[i]);
    }
    assert(ascii_lowered_parts(parts) =~= parts);
}

} // verus!
