//! Global hotkeys: the numbers that the system knows keys and modifiers by,
//! and which action a fired hotkey stands for.
use vstd::prelude::*;
use crate::config::keybinds::{add_bind, bind_views, digit_key, key_of_digit, LuaKeybind};
use crate::seqs::{is_last_where, last_where, lemma_last_where_push};
use crate::wm::geometry::Direction;
use crate::wm::input::{
    key_of_code, Act, Action, Bind, Key, Modifiers, COMMAND_BIT, CONTROL_BIT, OPTION_BIT, SHIFT_BIT,
};
use crate::wm::workspace::WorkspaceTarget;

verus! {

/// The system's bit for the command key.
pub const CMD_KEY: u32 = 0x100;

/// The system's bit for the shift key.
pub const SHIFT_KEY: u32 = 0x200;

/// The system's bit for the option key.
pub const OPTION_KEY: u32 = 0x800;

/// The system's bit for the control key.
pub const CONTROL_KEY: u32 = 0x1000;

/// The mark of hotkeys of this program: "tarm".
pub const HOTKEY_SIGNATURE: u32 = 0x7461726d;

/// A bit, or none.
pub open spec fn bit_if(on: bool, bit: u32) -> u32 {
    if on {
        bit
    } else {
        0
    }
}

/// Modifiers as the system knows them.
pub open spec fn carbon_modifiers(m: Modifiers) -> u32 {
    bit_if(m.has(Modifiers { bits: COMMAND_BIT }), CMD_KEY) | bit_if(
        m.has(Modifiers { bits: SHIFT_BIT }),
        SHIFT_KEY,
    ) | bit_if(m.has(Modifiers { bits: OPTION_BIT }), OPTION_KEY) | bit_if(
        m.has(Modifiers { bits: CONTROL_BIT }),
        CONTROL_KEY,
    )
}

fn bit_of(on: bool, bit: u32) -> (r: u32)
    ensures
        r == bit_if(on, bit),
{
    if on {
        bit
    } else {
        0
    }
}

pub fn modifiers_to_carbon(mods: Modifiers) -> (r: u32)
    ensures
        r == carbon_modifiers(mods),
{
    bit_of(mods.contains(Modifiers::command()), CMD_KEY) | bit_of(
        mods.contains(Modifiers::shift()),
        SHIFT_KEY,
    ) | bit_of(mods.contains(Modifiers::option()), OPTION_KEY) | bit_of(
        mods.contains(Modifiers::control()),
        CONTROL_KEY,
    )
}

/// The system's number of a key.
pub open spec fn code_of_key(key: Key) -> u16 {
    match key {
        Key::A => 0x00,
        Key::S => 0x01,
        Key::D => 0x02,
        Key::F => 0x03,
        Key::H => 0x04,
        Key::G => 0x05,
        Key::Z => 0x06,
        Key::X => 0x07,
        Key::C => 0x08,
        Key::V => 0x09,
        Key::B => 0x0B,
        Key::Q => 0x0C,
        Key::W => 0x0D,
        Key::E => 0x0E,
        Key::R => 0x0F,
        Key::Y => 0x10,
        Key::T => 0x11,
        Key::Num1 => 0x12,
        Key::Num2 => 0x13,
        Key::Num3 => 0x14,
        Key::Num4 => 0x15,
        Key::Num6 => 0x16,
        Key::Num5 => 0x17,
        Key::Equal => 0x18,
        Key::Num9 => 0x19,
        Key::Num7 => 0x1A,
        Key::Minus => 0x1B,
        Key::Num8 => 0x1C,
        Key::Num0 => 0x1D,
        Key::RightBracket => 0x1E,
        Key::O => 0x1F,
        Key::U => 0x20,
        Key::LeftBracket => 0x21,
        Key::I => 0x22,
        Key::P => 0x23,
        Key::Return => 0x24,
        Key::L => 0x25,
        Key::J => 0x26,
        Key::Quote => 0x27,
        Key::K => 0x28,
        Key::Semicolon => 0x29,
        Key::Backslash => 0x2A,
        Key::Comma => 0x2B,
        Key::Slash => 0x2C,
        Key::N => 0x2D,
        Key::M => 0x2E,
        Key::Period => 0x2F,
        Key::Tab => 0x30,
        Key::Space => 0x31,
        Key::Grave => 0x32,
        Key::Delete => 0x33,
        Key::Escape => 0x35,
        Key::Left => 0x7B,
        Key::Right => 0x7C,
        Key::Down => 0x7D,
        Key::Up => 0x7E,
        Key::F1 => 0x7A,
        Key::F2 => 0x78,
        Key::F3 => 0x63,
        Key::F4 => 0x76,
        Key::F5 => 0x60,
        Key::F6 => 0x61,
        Key::F7 => 0x62,
        Key::F8 => 0x64,
        Key::F9 => 0x65,
        Key::F10 => 0x6D,
        Key::F11 => 0x67,
        Key::F12 => 0x6F,
    }
}

/// The system's number of a key. Every key has one.
pub fn key_to_carbon(key: Key) -> (r: Option<u32>)
    ensures
        r == Some(code_of_key(key) as u32),
{
    let code: u16 = match key {
        Key::A => 0x00,
        Key::S => 0x01,
        Key::D => 0x02,
        Key::F => 0x03,
        Key::H => 0x04,
        Key::G => 0x05,
        Key::Z => 0x06,
        Key::X => 0x07,
        Key::C => 0x08,
        Key::V => 0x09,
        Key::B => 0x0B,
        Key::Q => 0x0C,
        Key::W => 0x0D,
        Key::E => 0x0E,
        Key::R => 0x0F,
        Key::Y => 0x10,
        Key::T => 0x11,
        Key::Num1 => 0x12,
        Key::Num2 => 0x13,
        Key::Num3 => 0x14,
        Key::Num4 => 0x15,
        Key::Num6 => 0x16,
        Key::Num5 => 0x17,
        Key::Equal => 0x18,
        Key::Num9 => 0x19,
        Key::Num7 => 0x1A,
        Key::Minus => 0x1B,
        Key::Num8 => 0x1C,
        Key::Num0 => 0x1D,
        Key::RightBracket => 0x1E,
        Key::O => 0x1F,
        Key::U => 0x20,
        Key::LeftBracket => 0x21,
        Key::I => 0x22,
        Key::P => 0x23,
        Key::Return => 0x24,
        Key::L => 0x25,
        Key::J => 0x26,
        Key::Quote => 0x27,
        Key::K => 0x28,
        Key::Semicolon => 0x29,
        Key::Backslash => 0x2A,
        Key::Comma => 0x2B,
        Key::Slash => 0x2C,
        Key::N => 0x2D,
        Key::M => 0x2E,
        Key::Period => 0x2F,
        Key::Tab => 0x30,
        Key::Space => 0x31,
        Key::Grave => 0x32,
        Key::Delete => 0x33,
        Key::Escape => 0x35,
        Key::Left => 0x7B,
        Key::Right => 0x7C,
        Key::Down => 0x7D,
        Key::Up => 0x7E,
        Key::F1 => 0x7A,
        Key::F2 => 0x78,
        Key::F3 => 0x63,
        Key::F4 => 0x76,
        Key::F5 => 0x60,
        Key::F6 => 0x61,
        Key::F7 => 0x62,
        Key::F8 => 0x64,
        Key::F9 => 0x65,
        Key::F10 => 0x6D,
        Key::F11 => 0x67,
        Key::F12 => 0x6F,
    };
    Some(code as u32)
}

/// Every key is found again by its number, and no other key by it.
pub proof fn law_key_code_round_trip(key: Key, code: u16)
    ensures
        key_of_code(code_of_key(key)) == Some(key),
        key_of_code(code) matches Some(k) ==> code_of_key(k) == code,
{
}

// --- The usual hotkeys ---

/// The hotkeys without those for workspaces.
pub open spec fn basic_hotkeys() -> Seq<Bind> {
    let m = Modifiers { bits: COMMAND_BIT };
    let ms = m.with(Modifiers { bits: SHIFT_BIT });
    let mc = m.with(Modifiers { bits: CONTROL_BIT });
    seq![
        Bind { modifiers: m, key: Key::Return, action: Act::SpawnTerminal },
        Bind { modifiers: ms, key: Key::Q, action: Act::CloseWindow },
        Bind { modifiers: m, key: Key::H, action: Act::Focus(Direction::Left) },
        Bind { modifiers: m, key: Key::J, action: Act::Focus(Direction::Down) },
        Bind { modifiers: m, key: Key::K, action: Act::Focus(Direction::Up) },
        Bind { modifiers: m, key: Key::L, action: Act::Focus(Direction::Right) },
        Bind { modifiers: m, key: Key::Left, action: Act::Focus(Direction::Left) },
        Bind { modifiers: m, key: Key::Down, action: Act::Focus(Direction::Down) },
        Bind { modifiers: m, key: Key::Up, action: Act::Focus(Direction::Up) },
        Bind { modifiers: m, key: Key::Right, action: Act::Focus(Direction::Right) },
        Bind { modifiers: ms, key: Key::H, action: Act::Swap(Direction::Left) },
        Bind { modifiers: ms, key: Key::J, action: Act::Swap(Direction::Down) },
        Bind { modifiers: ms, key: Key::K, action: Act::Swap(Direction::Up) },
        Bind { modifiers: ms, key: Key::L, action: Act::Swap(Direction::Right) },
        Bind { modifiers: ms, key: Key::Left, action: Act::Swap(Direction::Left) },
        Bind { modifiers: ms, key: Key::Down, action: Act::Swap(Direction::Down) },
        Bind { modifiers: ms, key: Key::Up, action: Act::Swap(Direction::Up) },
        Bind { modifiers: ms, key: Key::Right, action: Act::Swap(Direction::Right) },
        Bind { modifiers: mc, key: Key::H, action: Act::Resize(Direction::Left) },
        Bind { modifiers: mc, key: Key::J, action: Act::Resize(Direction::Down) },
        Bind { modifiers: mc, key: Key::K, action: Act::Resize(Direction::Up) },
        Bind { modifiers: mc, key: Key::L, action: Act::Resize(Direction::Right) },
        Bind { modifiers: m, key: Key::E, action: Act::Equalize },
        Bind { modifiers: ms, key: Key::Space, action: Act::ToggleFloat },
    ]
}

/// The hotkeys that go to the workspaces. The key of the tenth is 0.
pub open spec fn switch_hotkeys() -> Seq<Bind> {
    Seq::new(
        10,
        |i: int|
            Bind {
                modifiers: Modifiers { bits: COMMAND_BIT },
                key: digit_key(((i + 1) % 10) as u8),
                action: Act::Workspace(WorkspaceTarget::Numbered((i + 1) as u8)),
            },
    )
}

/// The hotkeys that move a window to the workspaces.
pub open spec fn move_hotkeys() -> Seq<Bind> {
    Seq::new(
        10,
        |i: int|
            Bind {
                modifiers: Modifiers { bits: COMMAND_BIT }.with(Modifiers { bits: SHIFT_BIT }),
                key: digit_key(((i + 1) % 10) as u8),
                action: Act::MoveToWorkspace(WorkspaceTarget::Numbered((i + 1) as u8)),
            },
    )
}

fn list_basic_hotkeys() -> (r: Vec<LuaKeybind>)
    ensures
        bind_views(r@) == basic_hotkeys(),
{
    let m: Modifiers = Modifiers::command();
    let ms: Modifiers = m.union(Modifiers::shift());
    let mc: Modifiers = m.union(Modifiers::control());
    let mut binds: Vec<LuaKeybind> = Vec::new();
    assert(bind_views(binds@) =~= seq![]);
    add_bind(&mut binds, m, Key::Return, Action::SpawnTerminal);
    add_bind(&mut binds, ms, Key::Q, Action::CloseWindow);
    add_bind(&mut binds, m, Key::H, Action::Focus(Direction::Left));
    add_bind(&mut binds, m, Key::J, Action::Focus(Direction::Down));
    add_bind(&mut binds, m, Key::K, Action::Focus(Direction::Up));
    add_bind(&mut binds, m, Key::L, Action::Focus(Direction::Right));
    add_bind(&mut binds, m, Key::Left, Action::Focus(Direction::Left));
    add_bind(&mut binds, m, Key::Down, Action::Focus(Direction::Down));
    add_bind(&mut binds, m, Key::Up, Action::Focus(Direction::Up));
    add_bind(&mut binds, m, Key::Right, Action::Focus(Direction::Right));
    add_bind(&mut binds, ms, Key::H, Action::Swap(Direction::Left));
    add_bind(&mut binds, ms, Key::J, Action::Swap(Direction::Down));
    add_bind(&mut binds, ms, Key::K, Action::Swap(Direction::Up));
    add_bind(&mut binds, ms, Key::L, Action::Swap(Direction::Right));
    add_bind(&mut binds, ms, Key::Left, Action::Swap(Direction::Left));
    add_bind(&mut binds, ms, Key::Down, Action::Swap(Direction::Down));
    add_bind(&mut binds, ms, Key::Up, Action::Swap(Direction::Up));
    add_bind(&mut binds, ms, Key::Right, Action::Swap(Direction::Right));
    add_bind(&mut binds, mc, Key::H, Action::Resize(Direction::Left));
    add_bind(&mut binds, mc, Key::J, Action::Resize(Direction::Down));
    add_bind(&mut binds, mc, Key::K, Action::Resize(Direction::Up));
    add_bind(&mut binds, mc, Key::L, Action::Resize(Direction::Right));
    add_bind(&mut binds, m, Key::E, Action::Equalize);
    add_bind(&mut binds, ms, Key::Space, Action::ToggleFloat);
    assert(bind_views(binds@) =~= basic_hotkeys());
    binds
}

/// The hotkeys to register where nothing else is configured.
pub fn register_defaults() -> (r: Vec<LuaKeybind>)
    ensures
        bind_views(r@) == basic_hotkeys() + switch_hotkeys() + move_hotkeys(),
{
    let m: Modifiers = Modifiers::command();
    let ms: Modifiers = m.union(Modifiers::shift());
    let mut binds = list_basic_hotkeys();
    let mut n: u8 = 1;
    assert(basic_hotkeys() + switch_hotkeys().take(0) =~= basic_hotkeys());
    while n <= 10
        invariant
            m == (Modifiers { bits: COMMAND_BIT }),
            1 <= n <= 11,
            bind_views(binds@) == basic_hotkeys() + switch_hotkeys().take(n - 1),
        decreases 11 - n,
    {
        add_bind(
            &mut binds,
            m,
            key_of_digit(n % 10),
            Action::Workspace(WorkspaceTarget::Numbered(n)),
        );
        assert(bind_views(binds@) =~= basic_hotkeys() + switch_hotkeys().take(n as int));
        n = n + 1;
    }
    let ghost before = basic_hotkeys() + switch_hotkeys();
    assert(switch_hotkeys().take(10) =~= switch_hotkeys());
    assert(before + move_hotkeys().take(0) =~= before);
    n = 1;
    while n <= 10
        invariant
            ms == (Modifiers { bits: COMMAND_BIT }).with(Modifiers { bits: SHIFT_BIT }),
            1 <= n <= 11,
            bind_views(binds@) == before + move_hotkeys().take(n - 1),
        decreases 11 - n,
    {
        add_bind(
            &mut binds,
            ms,
            key_of_digit(n % 10),
            Action::MoveToWorkspace(WorkspaceTarget::Numbered(n)),
        );
        assert(bind_views(binds@) =~= before + move_hotkeys().take(n as int));
        n = n + 1;
    }
    assert(move_hotkeys().take(10) =~= move_hotkeys());
    binds
}

// --- Registered hotkeys ---

/// What the system is asked to register.
#[derive(Clone, Copy, Debug, PartialEq, Eq, Structural)]
pub struct HotkeyRequest {
    pub code: u32,
    pub modifiers: u32,
    pub signature: u32,
    pub id: u32,
}

/// The hotkeys that are registered, by the numbers that they were given.
#[derive(Debug)]
pub struct HotkeyManager {
    pub next_id: u32,
    pub actions: Vec<(u32, Action)>,
}

pub open spec fn action_views(s: Seq<(u32, Action)>) -> Seq<(u32, Act)> {
    Seq::new(s.len(), |i: int| (s[i].0, s[i].1@))
}

/// Tells the entry of a hotkey.
pub open spec fn is_hotkey(id: u32) -> spec_fn((u32, Act)) -> bool {
    |e: (u32, Act)| e.0 == id
}

/// The action of a hotkey: the last one that was registered under its number.
pub open spec fn action_of(actions: Seq<(u32, Act)>, id: u32) -> Option<Act> {
    match last_where(actions, is_hotkey(id)) {
        Some(i) => Some(actions[i].1),
        None => None,
    }
}

pub open spec fn opt_act(a: Option<Action>) -> Option<Act> {
    match a {
        Some(a) => Some(a@),
        None => None,
    }
}

impl HotkeyManager {
    pub fn new(next_id: u32) -> (r: Self)
        ensures
            r.next_id == next_id,
            action_views(r.actions@) == Seq::<(u32, Act)>::empty(),
    {
        let r = HotkeyManager { next_id, actions: Vec::new() };
        assert(action_views(r.actions@) =~= Seq::<(u32, Act)>::empty());
        r
    }

    /// What to ask of the system for a key combination. Every request takes a
    /// number of its own.
    pub fn request(&mut self, modifiers: Modifiers, key: Key) -> (r: HotkeyRequest)
        ensures
            r == (HotkeyRequest {
                code: code_of_key(key) as u32,
                modifiers: carbon_modifiers(modifiers),
                signature: HOTKEY_SIGNATURE,
                id: old(self).next_id,
            }),
            final(self).next_id == (if old(self).next_id == u32::MAX {
                0u32
            } else {
                (old(self).next_id + 1) as u32
            }),
            final(self).actions@ == old(self).actions@,
    {
        let id: u32 = self.next_id;
        self.next_id = if id == u32::MAX {
            0
        } else {
            id + 1
        };
        let code: u32 = match key_to_carbon(key) {
            Some(code) => code,
            None => 0,
        };
        HotkeyRequest {
            code,
            modifiers: modifiers_to_carbon(modifiers),
            signature: HOTKEY_SIGNATURE,
            id,
        }
    }

    /// Notes what the system answered to a request. A hotkey is registered if
    /// the answer is 0.
    pub fn register(&mut self, id: u32, action: &Action, status: i32) -> (r: bool)
        ensures
            r == (status == 0),
            action_views(final(self).actions@) == if status == 0 {
                action_views(old(self).actions@).push((id, action@))
            } else {
                action_views(old(self).actions@)
            },
            final(self).next_id == old(self).next_id,
    {
        if status != 0 {
            return false;
        }
        self.actions.push((id, action.clone()));
        assert(action_views(self.actions@) =~= action_views(old(self).actions@).push(
            (id, action@),
        ));
        true
    }

    fn find(&self, id: u32) -> (r: Option<Action>)
        ensures
            opt_act(r) == action_of(action_views(self.actions@), id),
    {
        let ghost all = action_views(self.actions@);
        let ghost p = is_hotkey(id);
        let mut found: Option<usize> = None;
        let mut i: usize = 0;
        proof {
            assert(forall|k: int| !is_last_where(all.take(0), p, k));
        }
        while i < self.actions.len()
            invariant
                all == action_views(self.actions@),
                p == is_hotkey(id),
                i <= self.actions@.len(),
                match found {
                    Some(k) => k < i && last_where(all.take(i as int), p) == Some(k as int),
                    None => last_where(all.take(i as int), p) is None,
                },
            decreases self.actions.len() - i,
        {
            proof {
                lemma_last_where_push(all.take(i as int), p, all[i as int]);
                assert(all.take(i as int).push(all[i as int]) =~= all.take(i + 1));
            }
            if self.actions[i].0 == id {
                found = Some(i);
            }
            i = i + 1;
        }
        assert(all.take(all.len() as int) =~= all);
        match found {
            Some(k) => Some(self.actions[k].1.clone()),
            None => None,
        }
    }

    /// What a fired hotkey is answered, and the action that it stands for.
    /// `status` is what the system said when it was asked for the hotkey.
    pub fn fired(&self, status: i32, signature: u32, id: u32) -> (r: (i32, Option<Action>))
        ensures
            r.0 == (if status != 0 {
                status as int
            } else if signature != HOTKEY_SIGNATURE {
                -1
            } else {
                0
            }),
            opt_act(r.1) == (if status == 0 && signature == HOTKEY_SIGNATURE {
                action_of(action_views(self.actions@), id)
            } else {
                None
            }),
    {
        if status != 0 {
            (status, None)
        } else if signature != HOTKEY_SIGNATURE {
            (-1, None)
        } else {
            (0, self.find(id))
        }
    }
}

/// A registered hotkey stands for its action.
pub proof fn law_registered_hotkey_fires(actions: Seq<(u32, Act)>, id: u32, action: Act)
    ensures
        action_of(actions.push((id, action)), id) == Some(action),
        forall|other: u32|
            other != id ==> #[trigger] action_of(actions.push((id, action)), other) == action_of(
                actions,
                other,
            ),
{
    lemma_last_where_push(actions, is_hotkey(id), (id, action));
    assert forall|other: u32| other != id implies #[trigger] action_of(
        actions.push((id, action)),
        other,
    ) == action_of(actions, other) by {
        lemma_last_where_push(actions, is_hotkey(other), (id, action));
    }
}

} // verus!
