//! Keys, modifiers and the actions bound to them.
use vstd::prelude::*;
use crate::text::{copy, same};
use crate::wm::geometry::Direction;
use crate::wm::workspace::WorkspaceTarget;

verus! {

/// A set of modifier keys, one bit each.
#[derive(Clone, Copy, Debug, PartialEq, Eq, Structural, Hash)]
pub struct Modifiers {
    pub bits: u32,
}

pub const SHIFT_BIT: u32 = 1;

pub const CONTROL_BIT: u32 = 2;

pub const OPTION_BIT: u32 = 4;

pub const COMMAND_BIT: u32 = 8;

pub const FN_BIT: u32 = 16;

impl Modifiers {
    /// Whether all keys of `other` are in the set.
    pub open spec fn has(self, other: Modifiers) -> bool {
        self.bits & other.bits == other.bits
    }

    /// The keys of both sets.
    pub open spec fn with(self, other: Modifiers) -> Modifiers {
        Modifiers { bits: self.bits | other.bits }
    }

    pub fn empty() -> (r: Self)
        ensures
            r.bits == 0,
    {
        Modifiers { bits: 0 }
    }

    pub fn shift() -> (r: Self)
        ensures
            r.bits == SHIFT_BIT,
    {
        Modifiers { bits: SHIFT_BIT }
    }

    pub fn control() -> (r: Self)
        ensures
            r.bits == CONTROL_BIT,
    {
        Modifiers { bits: CONTROL_BIT }
    }

    pub fn option() -> (r: Self)
        ensures
            r.bits == OPTION_BIT,
    {
        Modifiers { bits: OPTION_BIT }
    }

    pub fn command() -> (r: Self)
        ensures
            r.bits == COMMAND_BIT,
    {
        Modifiers { bits: COMMAND_BIT }
    }

    pub fn function() -> (r: Self)
        ensures
            r.bits == FN_BIT,
    {
        Modifiers { bits: FN_BIT }
    }

    pub fn bits(&self) -> (r: u32)
        ensures
            r == self.bits,
    {
        self.bits
    }

    pub fn contains(&self, other: Modifiers) -> (r: bool)
        ensures
            r == self.has(other),
    {
        self.bits & other.bits == other.bits
    }

    pub fn union(self, other: Modifiers) -> (r: Modifiers)
        ensures
            r == self.with(other),
    {
        Modifiers { bits: self.bits | other.bits }
    }
}

/// A union holds both sets, and nothing is added by a set that it holds.
pub proof fn law_modifier_union(a: Modifiers, b: Modifiers)
    ensures
        a.with(b).has(a),
        a.with(b).has(b),
        a.has(b) ==> a.with(b) == a,
        a.with(b) == b.with(a),
{
    let x = a.bits;
    let y = b.bits;
    assert((x | y) & x == x) by (bit_vector);
    assert((x | y) & y == y) by (bit_vector);
    assert(x & y == y ==> x | y == x) by (bit_vector);
    assert(x | y == y | x) by (bit_vector);
}

/// A key press as the system reports it.
#[derive(Clone, Copy, Debug)]
pub struct KeyEvent {
    pub keycode: u16,
    pub modifiers: Modifiers,
}

/// A key of the keyboard.
#[derive(Clone, Copy, Debug, PartialEq, Eq, Structural, Hash)]
pub enum Key {
    A,
    B,
    C,
    D,
    E,
    F,
    G,
    H,
    I,
    J,
    K,
    L,
    M,
    N,
    O,
    P,
    Q,
    R,
    S,
    T,
    U,
    V,
    W,
    X,
    Y,
    Z,
    Num0,
    Num1,
    Num2,
    Num3,
    Num4,
    Num5,
    Num6,
    Num7,
    Num8,
    Num9,
    Return,
    Space,
    Tab,
    Escape,
    Delete,
    Grave,
    Minus,
    Equal,
    LeftBracket,
    RightBracket,
    Semicolon,
    Quote,
    Comma,
    Period,
    Slash,
    Backslash,
    Left,
    Right,
    Up,
    Down,
    F1,
    F2,
    F3,
    F4,
    F5,
    F6,
    F7,
    F8,
    F9,
    F10,
    F11,
    F12,
}

/// The key of a virtual keycode.
pub open spec fn key_of_code(code: u16) -> Option<Key> {
    match code {
        0x00 => Some(Key::A),
        0x01 => Some(Key::S),
        0x02 => Some(Key::D),
        0x03 => Some(Key::F),
        0x04 => Some(Key::H),
        0x05 => Some(Key::G),
        0x06 => Some(Key::Z),
        0x07 => Some(Key::X),
        0x08 => Some(Key::C),
        0x09 => Some(Key::V),
        0x0B => Some(Key::B),
        0x0C => Some(Key::Q),
        0x0D => Some(Key::W),
        0x0E => Some(Key::E),
        0x0F => Some(Key::R),
        0x10 => Some(Key::Y),
        0x11 => Some(Key::T),
        0x12 => Some(Key::Num1),
        0x13 => Some(Key::Num2),
        0x14 => Some(Key::Num3),
        0x15 => Some(Key::Num4),
        0x16 => Some(Key::Num6),
        0x17 => Some(Key::Num5),
        0x18 => Some(Key::Equal),
        0x19 => Some(Key::Num9),
        0x1A => Some(Key::Num7),
        0x1B => Some(Key::Minus),
        0x1C => Some(Key::Num8),
        0x1D => Some(Key::Num0),
        0x1E => Some(Key::RightBracket),
        0x1F => Some(Key::O),
        0x20 => Some(Key::U),
        0x21 => Some(Key::LeftBracket),
        0x22 => Some(Key::I),
        0x23 => Some(Key::P),
        0x24 => Some(Key::Return),
        0x25 => Some(Key::L),
        0x26 => Some(Key::J),
        0x27 => Some(Key::Quote),
        0x28 => Some(Key::K),
        0x29 => Some(Key::Semicolon),
        0x2A => Some(Key::Backslash),
        0x2B => Some(Key::Comma),
        0x2C => Some(Key::Slash),
        0x2D => Some(Key::N),
        0x2E => Some(Key::M),
        0x2F => Some(Key::Period),
        0x30 => Some(Key::Tab),
        0x31 => Some(Key::Space),
        0x32 => Some(Key::Grave),
        0x33 => Some(Key::Delete),
        0x35 => Some(Key::Escape),
        0x7A => Some(Key::F1),
        0x78 => Some(Key::F2),
        0x63 => Some(Key::F3),
        0x76 => Some(Key::F4),
        0x60 => Some(Key::F5),
        0x61 => Some(Key::F6),
        0x62 => Some(Key::F7),
        0x64 => Some(Key::F8),
        0x65 => Some(Key::F9),
        0x6D => Some(Key::F10),
        0x67 => Some(Key::F11),
        0x6F => Some(Key::F12),
        0x7B => Some(Key::Left),
        0x7C => Some(Key::Right),
        0x7D => Some(Key::Down),
        0x7E => Some(Key::Up),
        _ => None,
    }
}

/// Maps a virtual keycode to its key.
pub fn keycode_to_key(keycode: u16) -> (r: Option<Key>)
    ensures
        r == key_of_code(keycode),
{
    match keycode {
        0x00 => Some(Key::A),
        0x01 => Some(Key::S),
        0x02 => Some(Key::D),
        0x03 => Some(Key::F),
        0x04 => Some(Key::H),
        0x05 => Some(Key::G),
        0x06 => Some(Key::Z),
        0x07 => Some(Key::X),
        0x08 => Some(Key::C),
        0x09 => Some(Key::V),
        0x0B => Some(Key::B),
        0x0C => Some(Key::Q),
        0x0D => Some(Key::W),
        0x0E => Some(Key::E),
        0x0F => Some(Key::R),
        0x10 => Some(Key::Y),
        0x11 => Some(Key::T),
        0x12 => Some(Key::Num1),
        0x13 => Some(Key::Num2),
        0x14 => Some(Key::Num3),
        0x15 => Some(Key::Num4),
        0x16 => Some(Key::Num6),
        0x17 => Some(Key::Num5),
        0x18 => Some(Key::Equal),
        0x19 => Some(Key::Num9),
        0x1A => Some(Key::Num7),
        0x1B => Some(Key::Minus),
        0x1C => Some(Key::Num8),
        0x1D => Some(Key::Num0),
        0x1E => Some(Key::RightBracket),
        0x1F => Some(Key::O),
        0x20 => Some(Key::U),
        0x21 => Some(Key::LeftBracket),
        0x22 => Some(Key::I),
        0x23 => Some(Key::P),
        0x24 => Some(Key::Return),
        0x25 => Some(Key::L),
        0x26 => Some(Key::J),
        0x27 => Some(Key::Quote),
        0x28 => Some(Key::K),
        0x29 => Some(Key::Semicolon),
        0x2A => Some(Key::Backslash),
        0x2B => Some(Key::Comma),
        0x2C => Some(Key::Slash),
        0x2D => Some(Key::N),
        0x2E => Some(Key::M),
        0x2F => Some(Key::Period),
        0x30 => Some(Key::Tab),
        0x31 => Some(Key::Space),
        0x32 => Some(Key::Grave),
        0x33 => Some(Key::Delete),
        0x35 => Some(Key::Escape),
        0x7A => Some(Key::F1),
        0x78 => Some(Key::F2),
        0x63 => Some(Key::F3),
        0x76 => Some(Key::F4),
        0x60 => Some(Key::F5),
        0x61 => Some(Key::F6),
        0x62 => Some(Key::F7),
        0x64 => Some(Key::F8),
        0x65 => Some(Key::F9),
        0x6D => Some(Key::F10),
        0x67 => Some(Key::F11),
        0x6F => Some(Key::F12),
        0x7B => Some(Key::Left),
        0x7C => Some(Key::Right),
        0x7D => Some(Key::Down),
        0x7E => Some(Key::Up),
        _ => None,
    }
}

/// What a key combination does.
#[derive(Debug, PartialEq, Eq, Hash)]
pub enum Action {
    SpawnTerminal,
    CloseWindow,
    Focus(Direction),
    Swap(Direction),
    Resize(Direction),
    Equalize,
    Workspace(WorkspaceTarget),
    MoveToWorkspace(WorkspaceTarget),
    WorkspaceNext,
    WorkspacePrev,
    ToggleFloat,
    Unstack,
    PromoteStack,
    ToggleSpecial(String),
    MoveToSpecial(String),
    FocusMonitorNext,
    FocusMonitorPrev,
    MoveToMonitorNext,
    MoveToMonitorPrev,
    Reload,
    Exit,
}

/// An action as a mathematical value.
pub enum Act {
    SpawnTerminal,
    CloseWindow,
    Focus(Direction),
    Swap(Direction),
    Resize(Direction),
    Equalize,
    Workspace(WorkspaceTarget),
    MoveToWorkspace(WorkspaceTarget),
    WorkspaceNext,
    WorkspacePrev,
    ToggleFloat,
    Unstack,
    PromoteStack,
    ToggleSpecial(Seq<char>),
    MoveToSpecial(Seq<char>),
    FocusMonitorNext,
    FocusMonitorPrev,
    MoveToMonitorNext,
    MoveToMonitorPrev,
    Reload,
    Exit,
}

impl View for Action {
    type V = Act;

    open spec fn view(&self) -> Act {
        match self {
            Action::SpawnTerminal => Act::SpawnTerminal,
            Action::CloseWindow => Act::CloseWindow,
            Action::Focus(d) => Act::Focus(*d),
            Action::Swap(d) => Act::Swap(*d),
            Action::Resize(d) => Act::Resize(*d),
            Action::Equalize => Act::Equalize,
            Action::Workspace(t) => Act::Workspace(*t),
            Action::MoveToWorkspace(t) => Act::MoveToWorkspace(*t),
            Action::WorkspaceNext => Act::WorkspaceNext,
            Action::WorkspacePrev => Act::WorkspacePrev,
            Action::ToggleFloat => Act::ToggleFloat,
            Action::Unstack => Act::Unstack,
            Action::PromoteStack => Act::PromoteStack,
            Action::ToggleSpecial(name) => Act::ToggleSpecial(name@),
            Action::MoveToSpecial(name) => Act::MoveToSpecial(name@),
            Action::FocusMonitorNext => Act::FocusMonitorNext,
            Action::FocusMonitorPrev => Act::FocusMonitorPrev,
            Action::MoveToMonitorNext => Act::MoveToMonitorNext,
            Action::MoveToMonitorPrev => Act::MoveToMonitorPrev,
            Action::Reload => Act::Reload,
            Action::Exit => Act::Exit,
        }
    }
}

impl Clone for Action {
    fn clone(&self) -> (r: Self)
        ensures
            r@ == self@,
    {
        match self {
            Action::SpawnTerminal => Action::SpawnTerminal,
            Action::CloseWindow => Action::CloseWindow,
            Action::Focus(d) => Action::Focus(*d),
            Action::Swap(d) => Action::Swap(*d),
            Action::Resize(d) => Action::Resize(*d),
            Action::Equalize => Action::Equalize,
            Action::Workspace(t) => Action::Workspace(*t),
            Action::MoveToWorkspace(t) => Action::MoveToWorkspace(*t),
            Action::WorkspaceNext => Action::WorkspaceNext,
            Action::WorkspacePrev => Action::WorkspacePrev,
            Action::ToggleFloat => Action::ToggleFloat,
            Action::Unstack => Action::Unstack,
            Action::PromoteStack => Action::PromoteStack,
            Action::ToggleSpecial(name) => Action::ToggleSpecial(copy(name.as_str())),
            Action::MoveToSpecial(name) => Action::MoveToSpecial(copy(name.as_str())),
            Action::FocusMonitorNext => Action::FocusMonitorNext,
            Action::FocusMonitorPrev => Action::FocusMonitorPrev,
            Action::MoveToMonitorNext => Action::MoveToMonitorNext,
            Action::MoveToMonitorPrev => Action::MoveToMonitorPrev,
            Action::Reload => Action::Reload,
            Action::Exit => Action::Exit,
        }
    }
}

impl Action {
    /// Whether two actions are the same.
    pub fn is(&self, other: &Action) -> (r: bool)
        ensures
            r == (self@ == other@),
    {
        match (self, other) {
            (Action::SpawnTerminal, Action::SpawnTerminal) => true,
            (Action::CloseWindow, Action::CloseWindow) => true,
            (Action::Focus(a), Action::Focus(b)) => *a == *b,
            (Action::Swap(a), Action::Swap(b)) => *a == *b,
            (Action::Resize(a), Action::Resize(b)) => *a == *b,
            (Action::Equalize, Action::Equalize) => true,
            (Action::Workspace(a), Action::Workspace(b)) => *a == *b,
            (Action::MoveToWorkspace(a), Action::MoveToWorkspace(b)) => *a == *b,
            (Action::WorkspaceNext, Action::WorkspaceNext) => true,
            (Action::WorkspacePrev, Action::WorkspacePrev) => true,
            (Action::ToggleFloat, Action::ToggleFloat) => true,
            (Action::Unstack, Action::Unstack) => true,
            (Action::PromoteStack, Action::PromoteStack) => true,
            (Action::ToggleSpecial(a), Action::ToggleSpecial(b)) => same(a.as_str(), b.as_str()),
            (Action::MoveToSpecial(a), Action::MoveToSpecial(b)) => same(a.as_str(), b.as_str()),
            (Action::FocusMonitorNext, Action::FocusMonitorNext) => true,
            (Action::FocusMonitorPrev, Action::FocusMonitorPrev) => true,
            (Action::MoveToMonitorNext, Action::MoveToMonitorNext) => true,
            (Action::MoveToMonitorPrev, Action::MoveToMonitorPrev) => true,
            (Action::Reload, Action::Reload) => true,
            (Action::Exit, Action::Exit) => true,
            _ => false,
        }
    }
}

/// A key combination and what it does.
#[derive(Debug)]
pub struct Keybind {
    pub modifiers: Modifiers,
    pub key: Key,
    pub action: Action,
}

/// A key combination and what it does, as a mathematical value.
pub struct Bind {
    pub modifiers: Modifiers,
    pub key: Key,
    pub action: Act,
}

impl View for Keybind {
    type V = Bind;

    open spec fn view(&self) -> Bind {
        Bind { modifiers: self.modifiers, key: self.key, action: self.action@ }
    }
}

/// The action of the first bind for a combination.
pub open spec fn action_bound(binds: Seq<Bind>, modifiers: Modifiers, key: Key) -> Option<Act>
    decreases binds.len(),
{
    if binds.len() == 0 {
        None
    } else if binds[0].key == key && binds[0].modifiers == modifiers {
        Some(binds[0].action)
    } else {
        action_bound(binds.drop_first(), modifiers, key)
    }
}

/// Key bindings, looked up in the order in which they were added.
#[derive(Debug)]
pub struct KeybindManager {
    pub binds: Vec<Keybind>,
}

impl View for KeybindManager {
    type V = Seq<Bind>;

    open spec fn view(&self) -> Seq<Bind> {
        Seq::new(self.binds@.len(), |i: int| self.binds@[i]@)
    }
}

impl Default for KeybindManager {
    fn default() -> (r: Self)
        ensures
            r@ == Seq::<Bind>::empty(),
    {
        KeybindManager::new()
    }
}

impl KeybindManager {
    pub fn new() -> (r: Self)
        ensures
            r@ == Seq::<Bind>::empty(),
    {
        let r = KeybindManager { binds: Vec::new() };
        assert(r@ =~= Seq::<Bind>::empty());
        r
    }

    pub fn add(&mut self, modifiers: Modifiers, key: Key, action: Action)
        ensures
            final(self)@ == old(self)@.push(Bind { modifiers, key, action: action@ }),
    {
        self.binds.push(Keybind { modifiers, key, action });
        assert(self@ =~= old(self)@.push(Bind { modifiers, key, action: action@ }));
    }

    /// The action bound to a key press.
    pub fn dispatch(&self, event: &KeyEvent) -> (r: Option<Action>)
        ensures
            match key_of_code(event.keycode) {
                None => r is None,
                Some(key) => match action_bound(self@, event.modifiers, key) {
                    None => r is None,
                    Some(act) => r matches Some(a) && a@ == act,
                },
            },
    {
        let key: Key = match keycode_to_key(event.keycode) {
            Some(key) => key,
            None => {
                return None;
            },
        };
        let mut i: usize = 0;
        assert(self@.skip(0) =~= self@);
        while i < self.binds.len()
            invariant
                i <= self@.len(),
                self@.len() == self.binds@.len(),
                action_bound(self@, event.modifiers, key) == action_bound(
                    self@.skip(i as int),
                    event.modifiers,
                    key,
                ),
                key_of_code(event.keycode) == Some(key),
            decreases self.binds.len() - i,
        {
            assert(self@.skip(i as int).drop_first() =~= self@.skip(i + 1));
            if self.binds[i].key == key && self.binds[i].modifiers == event.modifiers {
                return Some(self.binds[i].action.clone());
            }
            i = i + 1;
        }
        None
    }

    /// Option and Return start a terminal, Option, Shift and Q close the window.
    pub fn with_defaults() -> (r: Self)
        ensures
            r@ == seq![
                Bind {
                    modifiers: Modifiers { bits: OPTION_BIT },
                    key: Key::Return,
                    action: Act::SpawnTerminal,
                },
                Bind {
                    modifiers: Modifiers { bits: OPTION_BIT }.with(Modifiers { bits: SHIFT_BIT }),
                    key: Key::Q,
                    action: Act::CloseWindow,
                },
            ],
    {
        let mut mgr = KeybindManager::new();
        mgr.add(Modifiers::option(), Key::Return, Action::SpawnTerminal);
        mgr.add(Modifiers::option().union(Modifiers::shift()), Key::Q, Action::CloseWindow);
        mgr
    }
}

} // verus!
