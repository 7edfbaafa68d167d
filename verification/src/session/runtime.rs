//! The configuration that holds while the program runs.
use vstd::prelude::*;
use crate::config::document::{binds_of, resolved_rows, Managed, ManagedConfigDocument};
use crate::config::lua::{LuaConfig, Script};
use crate::config::rows::copy_rules;
use crate::config::workspaces::{resolved_defs, resolved_overlays};
use crate::config::writing::{copy_defs, copy_specials};
use crate::platform::hotkey::{
    action_views, carbon_modifiers, code_of_key, HotkeyManager, HotkeyRequest, HOTKEY_SIGNATURE,
};
use crate::text::copy;
use crate::wm::input::{Act, Bind};
use crate::wm::state::{Wm, WmState};

verus! {

/// What holds while the program runs: what the file asks for, with the
/// bindings, workspaces and overlays that come out of all its parts.
pub open spec fn in_force(managed: Managed, script: Script) -> Script {
    Script {
        binds: binds_of(resolved_rows(managed, script, script.setup.mod_key)),
        defs: resolved_defs(managed, script),
        overlays: resolved_overlays(managed, script),
        ..script
    }
}

/// The configuration of a file.
pub fn load_runtime_config(doc: ManagedConfigDocument) -> (r: LuaConfig)
    ensures
        r@ == in_force(doc.managed@, doc.effective@),
{
    let keybinds = doc.resolved_keybinds(doc.effective.settings.mod_key);
    let (workspace_defs, special_configs) = doc.resolved_workspace_defs_and_specials();
    let r = LuaConfig {
        settings: doc.effective.settings,
        keybinds,
        rules: doc.effective.rules,
        special_configs,
        workspace_defs,
        callbacks: doc.effective.callbacks,
    };
    assert(r@ =~= in_force(doc.managed@, doc.effective@));
    r
}

/// The state with the settings of a configuration.
pub open spec fn set_up(wm: Wm, script: Script) -> Wm {
    let setup = script.setup;
    Wm {
        focus_follows_mouse: setup.focus_follows_mouse,
        mouse_follows_focus: setup.mouse_follows_focus,
        gap_inner: setup.gap_inner,
        gap_outer: setup.gap_outer,
        bar_height: setup.bar_height,
        rules: script.rules,
        overlays: script.overlays,
        borders: setup.border_width > 0,
        ..wm
    }.redefined(script.defs)
}

impl WmState {
    /// Takes over a configuration.
    pub fn configure(&mut self, config: &LuaConfig)
        requires
            old(self)@.sound(),
        ensures
            final(self)@ == set_up(old(self)@, config@),
            final(self)@.sound(),
            old(self)@.ready() ==> final(self)@.ready(),
    {
        self.focus_follows_mouse = config.settings.focus_follows_mouse;
        self.mouse_follows_focus = config.settings.mouse_follows_focus;
        self.gap_inner = config.settings.gap_inner;
        self.gap_outer = config.settings.gap_outer;
        self.bar_height = config.settings.bar_height;
        self.rules = copy_rules(&config.rules);
        self.special_configs = copy_specials(&config.special_configs);
        self.borders_enabled = config.settings.border_width > 0;
        self.set_workspace_defs(copy_defs(&config.workspace_defs));
    }

    /// Takes over a new configuration and lays the windows out by it.
    pub fn reload_config(&mut self, config: &LuaConfig)
        requires
            old(self)@.sound(),
        ensures
            final(self)@ == set_up(old(self)@, config@).laid_out().bordered(),
            final(self)@.sound(),
            old(self)@.ready() ==> final(self)@.ready(),
    {
        self.configure(config);
        self.apply_layout();
        self.update_borders();
    }
}

/// What runs in a shell when a terminal is asked for.
pub fn terminal_command(config: &Option<LuaConfig>) -> (r: String)
    ensures
        r@ == (match *config {
            Some(config) => config@.setup.terminal_command,
            None => "open -na WezTerm"@,
        }),
{
    match config {
        Some(config) => copy(config.settings.terminal_command.as_str()),
        None => copy("open -na WezTerm"),
    }
}

/// The number of a hotkey, so many after the first. After the largest number
/// comes 0.
pub open spec fn hotkey_number(first: u32, n: int) -> u32 {
    ((first + n) % 0x1_0000_0000) as u32
}

/// What is asked of the system for a binding.
pub open spec fn hotkey_request(bind: Bind, id: u32) -> HotkeyRequest {
    HotkeyRequest {
        code: code_of_key(bind.key) as u32,
        modifiers: carbon_modifiers(bind.modifiers),
        signature: HOTKEY_SIGNATURE,
        id,
    }
}

/// Starts anew with the hotkeys of a configuration: what to ask of the system
/// for each binding, in order, and a manager that waits for the answers.
pub fn register_hotkeys_from_config(config: &LuaConfig, first_id: u32) -> (r: (
    HotkeyManager,
    Vec<HotkeyRequest>,
))
    ensures
        action_views(r.0.actions@) == Seq::<(u32, Act)>::empty(),
        r.0.next_id == hotkey_number(first_id, config@.binds.len() as int),
        r.1@ == Seq::new(
            config@.binds.len(),
            |i: int| hotkey_request(config@.binds[i], hotkey_number(first_id, i)),
        ),
{
    let ghost binds = config@.binds;
    let mut manager = HotkeyManager::new(first_id);
    let mut requests: Vec<HotkeyRequest> = Vec::new();
    let mut i: usize = 0;
    while i < config.keybinds.len()
        invariant
            binds == config@.binds,
            i <= config.keybinds@.len(),
            action_views(manager.actions@) == Seq::<(u32, Act)>::empty(),
            manager.next_id == hotkey_number(first_id, i as int),
            requests@ == Seq::new(
                i as nat,
                |j: int| hotkey_request(binds[j], hotkey_number(first_id, j)),
            ),
        decreases config.keybinds.len() - i,
    {
        assert(config.keybinds@[i as int]@ == binds[i as int]);
        let request = manager.request(config.keybinds[i].modifiers, config.keybinds[i].key);
        requests.push(request);
        i = i + 1;
    }
    (manager, requests)
}

} // verus!
