//! The settings window: what it shows, and what its actions do to the
//! configuration file.
use vstd::prelude::*;
use crate::config::document::{resolved_rows, Managed, ManagedConfigDocument};
use crate::config::keybinds::{
    bind_named, default_binds, default_keybinds, key_parts, lowered_parts, parse_keybind,
};
use crate::config::lua::{with_def, Script};
use crate::config::rows::{
    bind_row_views, rule_entries, rule_list, ws_row_views, BindRow, ConfigSource, KeybindRow,
    RuleEntry, RuleRow, WorkspaceRow,
};
use crate::config::rules::{Rule, WindowRule};
use crate::config::settings::Setup;
use crate::config::special::{default_overlay, Overlay};
use crate::config::workspaces::ws_rows;
use crate::config::writing::{modifier_name, name_of_modifier};
use crate::seqs::{first_where, left_out};
use crate::text::{copy, decimal, integer, number, opt_view, same, trimmed};
use crate::ui::editing::{
    add_managed_keybind, bind_marks, bind_place, copy_keybind_to_managed, delete_managed_keybind,
    fallback, fallback_selected_keybind_after_delete, fallback_selected_rule_after_delete,
    fallback_selected_workspace_after_delete, is_outer_bind, managed_id, new_bind, opt_text,
    replace_managed_keybind, resolve_selected_keybind_id, resolve_selected_rule_id,
    resolve_selected_workspace_id, rule_marks, selected, workspace_fallback, ws_marks,
};
use crate::ui::rule_editing::{
    add_managed_rule, delete_managed_rule, duplicate_managed_rule, fresh_rule,
    move_managed_rule_down, move_managed_rule_up, neighbours_swapped, new_rule_id,
    replace_managed_rule, rule_place, rule_switched, toggle_managed_rule_enabled,
};
use crate::ui::workspace_editing::{
    add_managed_lettered_workspace, add_managed_special_workspace, copy_workspace_to_managed,
    defs_without, delete_managed_workspace, is_row_of, named_def_place, named_overlay_place,
    overlays_with_draft, overlays_with_row, overlays_without, replace_managed_workspace,
    with_overlay, Draft, WorkspaceDraft,
};
use crate::wm::input::{Bind, Modifiers, COMMAND_BIT, CONTROL_BIT, OPTION_BIT};
use crate::wm::monitor::Monitor;
use crate::wm::workspace::{id_named, plain_def, WsDef, WsId};

verus! {

// --- Actions ---

/// What a user has entered for a key binding.
#[derive(Debug)]
pub struct KeybindDraft {
    pub shortcut: String,
    pub action: String,
}

/// What a user did in the settings window.
#[derive(Debug)]
pub enum SettingsAction {
    GapInner(i64),
    GapOuter(i64),
    BarHeight(i64),
    BorderWidth(i64),
    BorderRadius(i64),
    BorderColorFocused(String),
    BorderColorUnfocused(String),
    FocusFollowsMouse(bool),
    MouseFollowsFocus(bool),
    ModKey(String),
    SelectKeybind(String),
    AddKeybind,
    DeleteKeybind(String),
    CopyKeybindToManaged(String),
    UpdateKeybindDraft(KeybindDraft),
    ApplyKeybind(String),
    ResetManagedKeybinds,
    SelectRule(String),
    AddRule,
    DuplicateRule(String),
    DeleteRule(String),
    MoveRuleUp(String),
    MoveRuleDown(String),
    UpdateRuleDraft(WindowRule),
    ApplyRule(String),
    ToggleRuleEnabled(String, bool),
    SelectWorkspace(String),
    AddLetteredWorkspace(String),
    AddSpecialWorkspace(String),
    CopyWorkspaceToManaged(String),
    DeleteWorkspace(String),
    UpdateWorkspaceDraft(WorkspaceDraft),
    ApplyWorkspace(String),
}

/// A round of work in the settings window on a configuration file.
#[derive(Debug)]
pub struct SettingsSession {
    pub doc: ManagedConfigDocument,
    pub selected_keybind: Option<String>,
    pub selected_rule: Option<String>,
    pub selected_workspace: Option<String>,
    pub keybind_draft: Option<KeybindDraft>,
    pub rule_draft: Option<WindowRule>,
    pub workspace_draft: Option<WorkspaceDraft>,
    /// Whether the file has to be written.
    pub should_write: bool,
}

/// A round of work as a mathematical value.
#[verifier::ext_equal]
pub struct Desk {
    pub prefix: Seq<char>,
    pub suffix: Seq<char>,
    pub managed: Managed,
    pub script: Script,
    pub keybind: Option<Seq<char>>,
    pub rule: Option<Seq<char>>,
    pub workspace: Option<Seq<char>>,
    pub keybind_draft: Option<(Seq<char>, Seq<char>)>,
    pub rule_draft: Option<Rule>,
    pub workspace_draft: Option<Draft>,
    pub write: bool,
}

impl View for SettingsSession {
    type V = Desk;

    open spec fn view(&self) -> Desk {
        Desk {
            prefix: self.doc.prefix@,
            suffix: self.doc.suffix@,
            managed: self.doc.managed@,
            script: self.doc.effective@,
            keybind: opt_view(self.selected_keybind),
            rule: opt_view(self.selected_rule),
            workspace: opt_view(self.selected_workspace),
            keybind_draft: match self.keybind_draft {
                Some(d) => Some((d.shortcut@, d.action@)),
                None => None,
            },
            rule_draft: match self.rule_draft {
                Some(d) => Some(d@),
                None => None,
            },
            workspace_draft: match self.workspace_draft {
                Some(d) => Some(d@),
                None => None,
            },
            write: self.should_write,
        }
    }
}

/// The main modifier of a name.
pub open spec fn modifier_chosen(name: Seq<char>) -> Modifiers {
    if name == "option"@ {
        Modifiers { bits: OPTION_BIT }
    } else if name == "control"@ {
        Modifiers { bits: CONTROL_BIT }
    } else {
        Modifiers { bits: COMMAND_BIT }
    }
}

impl Desk {
    /// New settings, to be written.
    pub open spec fn with_setup(self, setup: Setup) -> Desk {
        Desk { managed: Managed { setup, ..self.managed }, write: true, ..self }
    }

    /// A change of the managed key bindings, to be written.
    pub open spec fn with_binds(
        self,
        binds: Seq<Bind>,
        keybind: Option<Seq<char>>,
    ) -> Desk {
        Desk { managed: Managed { binds, ..self.managed }, keybind, write: true, ..self }
    }

    /// A change of the managed rules, to be written.
    pub open spec fn with_rules(self, rules: Seq<Rule>, rule: Option<Seq<char>>) -> Desk {
        Desk { managed: Managed { rules, ..self.managed }, rule, write: true, ..self }
    }

    /// A change of the managed workspaces, to be written.
    pub open spec fn with_workspaces(
        self,
        defs: Seq<WsDef>,
        overlays: Seq<Overlay>,
        workspace: Option<Seq<char>>,
    ) -> Desk {
        Desk { managed: Managed { defs, overlays, ..self.managed }, workspace, write: true, ..self }
    }

    /// The bindings that hold.
    pub open spec fn bind_rows(self) -> Seq<BindRow> {
        resolved_rows(self.managed, self.script, self.script.setup.mod_key)
    }

    /// The rules as they are listed.
    pub open spec fn rule_rows(self) -> Seq<RuleEntry> {
        rule_list(self.managed.rules, ConfigSource::Managed) + rule_list(
            left_out(self.script.rules, self.managed.rules),
            ConfigSource::Lua,
        )
    }

    /// After a change of a setting.
    pub open spec fn setting_changed(self, action: SettingsAction) -> Desk {
        let setup = self.managed.setup;
        match action {
            SettingsAction::GapInner(v) => self.with_setup(Setup { gap_inner: v, ..setup }),
            SettingsAction::GapOuter(v) => self.with_setup(Setup { gap_outer: v, ..setup }),
            SettingsAction::BarHeight(v) => self.with_setup(Setup { bar_height: v, ..setup }),
            SettingsAction::BorderWidth(v) => self.with_setup(Setup { border_width: v, ..setup }),
            SettingsAction::BorderRadius(v) => self.with_setup(Setup { border_radius: v, ..setup }),
            SettingsAction::BorderColorFocused(v) => self.with_setup(
                Setup { border_color_focused: v@, ..setup },
            ),
            SettingsAction::BorderColorUnfocused(v) => self.with_setup(
                Setup { border_color_unfocused: v@, ..setup },
            ),
            SettingsAction::FocusFollowsMouse(v) => self.with_setup(
                Setup { focus_follows_mouse: v, ..setup },
            ),
            SettingsAction::MouseFollowsFocus(v) => self.with_setup(
                Setup { mouse_follows_focus: v, ..setup },
            ),
            SettingsAction::ModKey(v) => self.with_setup(
                Setup { mod_key: modifier_chosen(v@), ..setup },
            ),
            _ => self,
        }
    }

    /// After an action on the key bindings.
    pub open spec fn keybind_changed(self, action: SettingsAction) -> Desk {
        let binds = self.managed.binds;
        let mod_key = self.managed.setup.mod_key;
        match action {
            SettingsAction::SelectKeybind(id) => Desk { keybind: Some(id@), ..self },
            SettingsAction::AddKeybind => self.with_binds(
                binds.push(new_bind(binds, mod_key)),
                Some(managed_id(binds.len())),
            ),
            SettingsAction::DeleteKeybind(id) => match bind_place(binds.len(), id@) {
                Some(i) => self.with_binds(
                    binds.remove(i),
                    fallback(bind_marks(self.bind_rows()), id@),
                ),
                None => self,
            },
            SettingsAction::CopyKeybindToManaged(id) => match first_where(
                self.bind_rows(),
                is_outer_bind(id@),
            ) {
                Some(i) => self.with_binds(
                    binds.push(self.bind_rows()[i].bind),
                    Some(managed_id(binds.len())),
                ),
                None => self,
            },
            SettingsAction::UpdateKeybindDraft(d) => Desk {
                keybind_draft: Some((d.shortcut@, d.action@)),
                ..self
            },
            SettingsAction::ApplyKeybind(id) => match self.keybind_draft {
                None => self,
                Some(draft) => {
                    let taken = Desk { keybind_draft: None, ..self };
                    match bind_named(lowered_parts(key_parts(draft.0)), draft.1, mod_key) {
                        Err(_) => taken,
                        Ok(bind) => match bind_place(binds.len(), id@) {
                            Some(i) => taken.with_binds(binds.update(i, bind), Some(id@)),
                            None => taken,
                        },
                    }
                },
            },
            SettingsAction::ResetManagedKeybinds => self.with_binds(
                default_binds(mod_key),
                self.keybind,
            ),
            _ => self,
        }
    }

    /// After an action on the rules.
    pub open spec fn rule_changed(self, action: SettingsAction) -> Desk {
        let rules = self.managed.rules;
        match action {
            SettingsAction::SelectRule(id) => Desk { rule: Some(id@), ..self },
            SettingsAction::AddRule => self.with_rules(
                rules.push(fresh_rule(rules)),
                Some(new_rule_id(rules)),
            ),
            SettingsAction::DuplicateRule(id) => match rule_place(rules, id@) {
                Some(i) => self.with_rules(
                    rules.insert(i + 1, Rule { id: Some(new_rule_id(rules)), ..rules[i] }),
                    Some(new_rule_id(rules)),
                ),
                None => self,
            },
            SettingsAction::DeleteRule(id) => match rule_place(rules, id@) {
                Some(i) => self.with_rules(
                    rules.remove(i),
                    fallback(rule_marks(self.rule_rows()), id@),
                ),
                None => self,
            },
            SettingsAction::MoveRuleUp(id) => match rule_place(rules, id@) {
                Some(i) if i > 0 => self.with_rules(neighbours_swapped(rules, i - 1), Some(id@)),
                _ => self,
            },
            SettingsAction::MoveRuleDown(id) => match rule_place(rules, id@) {
                Some(i) if i + 1 < rules.len() => self.with_rules(
                    neighbours_swapped(rules, i),
                    Some(id@),
                ),
                _ => self,
            },
            SettingsAction::UpdateRuleDraft(d) => Desk { rule_draft: Some(d@), ..self },
            SettingsAction::ApplyRule(id) => match self.rule_draft {
                None => self,
                Some(draft) => {
                    let taken = Desk { rule_draft: None, ..self };
                    match rule_place(rules, id@) {
                        Some(i) => taken.with_rules(
                            rules.update(i, Rule { id: Some(id@), ..draft }),
                            Some(id@),
                        ),
                        None => taken,
                    }
                },
            },
            SettingsAction::ToggleRuleEnabled(id, enabled) => match rule_place(rules, id@) {
                Some(i) => self.with_rules(
                    rules.update(i, rule_switched(rules[i], id@, enabled)),
                    Some(id@),
                ),
                None => self,
            },
            _ => self,
        }
    }

    /// After an action on the workspaces.
    pub open spec fn workspace_changed(self, action: SettingsAction) -> Desk {
        let defs = self.managed.defs;
        let overlays = self.managed.overlays;
        let rows = ws_rows(self.managed, self.script);
        match action {
            SettingsAction::SelectWorkspace(id) => Desk { workspace: Some(id@), ..self },
            SettingsAction::AddLetteredWorkspace(letter) => match id_named(letter@) {
                Some(WsId::Lettered(c)) => self.with_workspaces(
                    with_def(defs, plain_def(WsId::Lettered(c))),
                    overlays,
                    Some(WsId::Lettered(c).text()),
                ),
                _ => self,
            },
            SettingsAction::AddSpecialWorkspace(name) => {
                let name = trimmed(name@);
                if name.len() == 0 {
                    self
                } else {
                    self.with_workspaces(
                        with_def(defs, plain_def(WsId::Special(name))),
                        with_overlay(overlays, default_overlay(name)),
                        Some(WsId::Special(name).text()),
                    )
                }
            },
            SettingsAction::CopyWorkspaceToManaged(id) => match first_where(
                rows,
                is_row_of(id@, false),
            ) {
                Some(i) => self.with_workspaces(
                    with_def(defs, rows[i].def),
                    overlays_with_row(overlays, rows[i]),
                    Some(rows[i].id),
                ),
                None => self,
            },
            SettingsAction::DeleteWorkspace(id) => match first_where(rows, is_row_of(id@, true)) {
                Some(i) => {
                    let special = rows[i].kind is Special;
                    if named_def_place(defs, id@) is Some || (special && named_overlay_place(
                        overlays,
                        id@,
                    ) is Some) {
                        self.with_workspaces(
                            defs_without(defs, id@),
                            if special {
                                overlays_without(overlays, id@)
                            } else {
                                overlays
                            },
                            workspace_fallback(rows, id@),
                        )
                    } else {
                        self
                    }
                },
                None => self,
            },
            SettingsAction::UpdateWorkspaceDraft(d) => Desk { workspace_draft: Some(d@), ..self },
            SettingsAction::ApplyWorkspace(id) => match self.workspace_draft {
                None => self,
                Some(draft) => {
                    let taken = Desk { workspace_draft: None, ..self };
                    if id@ == draft.id {
                        taken.with_workspaces(
                            with_def(defs, draft.def),
                            overlays_with_draft(overlays, draft),
                            Some(id@),
                        )
                    } else {
                        taken
                    }
                },
            },
            _ => self,
        }
    }

    /// After one action.
    pub open spec fn changed(self, action: SettingsAction) -> Desk {
        self.setting_changed(action).keybind_changed(action).rule_changed(
            action,
        ).workspace_changed(action)
    }

    /// After some actions, one after the other.
    pub open spec fn changed_by_all(self, actions: Seq<SettingsAction>) -> Desk
        decreases actions.len(),
    {
        if actions.len() == 0 {
            self
        } else {
            self.changed_by_all(actions.drop_last()).changed(actions.last())
        }
    }
}

fn choose_modifier(name: &str) -> (r: Modifiers)
    ensures
        r == modifier_chosen(name@),
{
    if same(name, "option") {
        Modifiers::option()
    } else if same(name, "control") {
        Modifiers::control()
    } else {
        Modifiers::command()
    }
}

impl SettingsSession {
    /// Starts a round on a file, with what was selected before.
    pub fn new(
        doc: ManagedConfigDocument,
        selected_keybind: Option<String>,
        selected_rule: Option<String>,
        selected_workspace: Option<String>,
    ) -> (r: SettingsSession)
        ensures
            r@ == (Desk {
                prefix: doc.prefix@,
                suffix: doc.suffix@,
                managed: doc.managed@,
                script: doc.effective@,
                keybind: opt_view(selected_keybind),
                rule: opt_view(selected_rule),
                workspace: opt_view(selected_workspace),
                keybind_draft: None,
                rule_draft: None,
                workspace_draft: None,
                write: false,
            }),
            r.doc == doc,
    {
        SettingsSession {
            doc,
            selected_keybind,
            selected_rule,
            selected_workspace,
            keybind_draft: None,
            rule_draft: None,
            workspace_draft: None,
            should_write: false,
        }
    }

    fn change_setting(&mut self, action: &SettingsAction)
        ensures
            final(self)@ == old(self)@.setting_changed(*action),
    {
        match action {
            SettingsAction::GapInner(v) => {
                self.doc.managed.settings.gap_inner = *v;
            },
            SettingsAction::GapOuter(v) => {
                self.doc.managed.settings.gap_outer = *v;
            },
            SettingsAction::BarHeight(v) => {
                self.doc.managed.settings.bar_height = *v;
            },
            SettingsAction::BorderWidth(v) => {
                self.doc.managed.settings.border_width = *v;
            },
            SettingsAction::BorderRadius(v) => {
                self.doc.managed.settings.border_radius = *v;
            },
            SettingsAction::BorderColorFocused(v) => {
                self.doc.managed.settings.border_color_focused = copy(v.as_str());
            },
            SettingsAction::BorderColorUnfocused(v) => {
                self.doc.managed.settings.border_color_unfocused = copy(v.as_str());
            },
            SettingsAction::FocusFollowsMouse(v) => {
                self.doc.managed.settings.focus_follows_mouse = *v;
            },
            SettingsAction::MouseFollowsFocus(v) => {
                self.doc.managed.settings.mouse_follows_focus = *v;
            },
            SettingsAction::ModKey(v) => {
                self.doc.managed.settings.mod_key = choose_modifier(v.as_str());
            },
            _ => {
                return;
            },
        }
        self.should_write = true;
        assert(self@ =~= old(self)@.setting_changed(*action));
    }

    fn apply_keybind(&mut self, id: &str)
        ensures
            forall|action: SettingsAction|
                (action matches SettingsAction::ApplyKeybind(s) && s@ == id@) ==> final(self)@
                    == #[trigger] old(self)@.keybind_changed(action),
    {
        let mut draft: Option<KeybindDraft> = None;
        std::mem::swap(&mut draft, &mut self.keybind_draft);
        if let Some(draft) = draft {
            let mod_key: Modifiers = self.doc.managed.settings.mod_key;
            if let Ok(bind) = parse_keybind(draft.shortcut.as_str(), draft.action.as_str(), mod_key) {
                if replace_managed_keybind(&mut self.doc.managed.keybinds, id, bind) {
                    self.selected_keybind = Some(copy(id));
                    self.should_write = true;
                }
            }
        }
    }

    fn change_keybind(&mut self, action: &SettingsAction)
        ensures
            final(self)@ == old(self)@.keybind_changed(*action),
    {
        match action {
            SettingsAction::SelectKeybind(id) => {
                self.selected_keybind = Some(copy(id.as_str()));
            },
            SettingsAction::AddKeybind => {
                let mod_key: Modifiers = self.doc.managed.settings.mod_key;
                let id = add_managed_keybind(&mut self.doc.managed.keybinds, mod_key);
                self.selected_keybind = Some(id);
                self.should_write = true;
            },
            SettingsAction::DeleteKeybind(id) => {
                let rows = self.doc.resolved_keybind_rows(self.doc.effective.settings.mod_key);
                let next = fallback_selected_keybind_after_delete(&rows, id.as_str());
                if delete_managed_keybind(&mut self.doc.managed.keybinds, id.as_str()) {
                    self.selected_keybind = next;
                    self.should_write = true;
                }
            },
            SettingsAction::CopyKeybindToManaged(id) => {
                let rows = self.doc.resolved_keybind_rows(self.doc.effective.settings.mod_key);
                let copied = copy_keybind_to_managed(
                    &rows,
                    &mut self.doc.managed.keybinds,
                    id.as_str(),
                );
                if copied.is_some() {
                    self.selected_keybind = copied;
                    self.should_write = true;
                }
            },
            SettingsAction::UpdateKeybindDraft(d) => {
                self.keybind_draft = Some(
                    KeybindDraft {
                        shortcut: copy(d.shortcut.as_str()),
                        action: copy(d.action.as_str()),
                    },
                );
            },
            SettingsAction::ApplyKeybind(id) => {
                self.apply_keybind(id.as_str());
            },
            SettingsAction::ResetManagedKeybinds => {
                self.doc.managed.keybinds = default_keybinds(&self.doc.managed.settings);
                self.should_write = true;
            },
            _ => {},
        }
        assert(self@ =~= old(self)@.keybind_changed(*action));
    }

    fn change_rule(&mut self, action: &SettingsAction)
        ensures
            final(self)@ == old(self)@.rule_changed(*action),
    {
        match action {
            SettingsAction::SelectRule(id) => {
                self.selected_rule = Some(copy(id.as_str()));
            },
            SettingsAction::AddRule => {
                let id = add_managed_rule(&mut self.doc.managed.rules);
                self.selected_rule = Some(id);
                self.should_write = true;
            },
            SettingsAction::DuplicateRule(id) => {
                let added = duplicate_managed_rule(&mut self.doc.managed.rules, id.as_str());
                if added.is_some() {
                    self.selected_rule = added;
                    self.should_write = true;
                }
            },
            SettingsAction::DeleteRule(id) => {
                let rows = self.doc.rule_rows();
                let next = fallback_selected_rule_after_delete(&rows, id.as_str());
                if delete_managed_rule(&mut self.doc.managed.rules, id.as_str()) {
                    self.selected_rule = next;
                    self.should_write = true;
                }
            },
            SettingsAction::MoveRuleUp(id) => {
                if move_managed_rule_up(&mut self.doc.managed.rules, id.as_str()) {
                    self.selected_rule = Some(copy(id.as_str()));
                    self.should_write = true;
                }
            },
            SettingsAction::MoveRuleDown(id) => {
                if move_managed_rule_down(&mut self.doc.managed.rules, id.as_str()) {
                    self.selected_rule = Some(copy(id.as_str()));
                    self.should_write = true;
                }
            },
            SettingsAction::UpdateRuleDraft(d) => {
                self.rule_draft = Some(d.clone());
            },
            SettingsAction::ApplyRule(id) => {
                let mut draft: Option<WindowRule> = None;
                std::mem::swap(&mut draft, &mut self.rule_draft);
                if let Some(draft) = draft {
                    if replace_managed_rule(&mut self.doc.managed.rules, id.as_str(), &draft) {
                        self.selected_rule = Some(copy(id.as_str()));
                        self.should_write = true;
                    }
                }
            },
            SettingsAction::ToggleRuleEnabled(id, enabled) => {
                if toggle_managed_rule_enabled(
                    &mut self.doc.managed.rules,
                    id.as_str(),
                    *enabled,
                ) {
                    self.selected_rule = Some(copy(id.as_str()));
                    self.should_write = true;
                }
            },
            _ => {},
        }
        assert(self@ =~= old(self)@.rule_changed(*action));
    }

    fn change_workspace(&mut self, action: &SettingsAction)
        ensures
            final(self)@ == old(self)@.workspace_changed(*action),
    {
        match action {
            SettingsAction::SelectWorkspace(id) => {
                self.selected_workspace = Some(copy(id.as_str()));
            },
            SettingsAction::AddLetteredWorkspace(letter) => {
                let added = add_managed_lettered_workspace(
                    &mut self.doc.managed.workspace_defs,
                    letter.as_str(),
                );
                if added.is_some() {
                    self.selected_workspace = added;
                    self.should_write = true;
                }
            },
            SettingsAction::AddSpecialWorkspace(name) => {
                let added = add_managed_special_workspace(
                    &mut self.doc.managed.workspace_defs,
                    &mut self.doc.managed.special_configs,
                    name.as_str(),
                );
                if added.is_some() {
                    self.selected_workspace = added;
                    self.should_write = true;
                }
            },
            SettingsAction::CopyWorkspaceToManaged(id) => {
                let rows = self.doc.workspace_rows();
                let copied = copy_workspace_to_managed(
                    &rows,
                    &mut self.doc.managed.workspace_defs,
                    &mut self.doc.managed.special_configs,
                    id.as_str(),
                );
                if copied.is_some() {
                    self.selected_workspace = copied;
                    self.should_write = true;
                }
            },
            SettingsAction::DeleteWorkspace(id) => {
                let rows = self.doc.workspace_rows();
                let next = fallback_selected_workspace_after_delete(&rows, id.as_str());
                if delete_managed_workspace(
                    &rows,
                    &mut self.doc.managed.workspace_defs,
                    &mut self.doc.managed.special_configs,
                    id.as_str(),
                ) {
                    self.selected_workspace = next;
                    self.should_write = true;
                }
            },
            SettingsAction::UpdateWorkspaceDraft(d) => {
                self.workspace_draft = Some(d.clone());
            },
            SettingsAction::ApplyWorkspace(id) => {
                let mut draft: Option<WorkspaceDraft> = None;
                std::mem::swap(&mut draft, &mut self.workspace_draft);
                if let Some(draft) = draft {
                    if replace_managed_workspace(
                        &mut self.doc.managed.workspace_defs,
                        &mut self.doc.managed.special_configs,
                        id.as_str(),
                        &draft,
                    ) {
                        self.selected_workspace = Some(copy(id.as_str()));
                        self.should_write = true;
                    }
                }
            },
            _ => {},
        }
        assert(self@ =~= old(self)@.workspace_changed(*action));
    }

    /// Does one action.
    pub fn change(&mut self, action: &SettingsAction)
        ensures
            final(self)@ == old(self)@.changed(*action),
    {
        self.change_setting(action);
        self.change_keybind(action);
        self.change_rule(action);
        self.change_workspace(action);
    }

    /// Does what a user did, in its order.
    pub fn poll_settings_actions(&mut self, actions: &Vec<SettingsAction>)
        ensures
            final(self)@ == old(self)@.changed_by_all(actions@),
    {
        let ghost start = self@;
        let mut i: usize = 0;
        assert(actions@.take(0) =~= seq![]);
        while i < actions.len()
            invariant
                start == old(self)@,
                i <= actions@.len(),
                self@ == start.changed_by_all(actions@.take(i as int)),
            decreases actions.len() - i,
        {
            proof {
                assert(actions@.take(i + 1).drop_last() =~= actions@.take(i as int));
                assert(actions@.take(i + 1).last() == actions@[i as int]);
            }
            self.change(&actions[i]);
            i = i + 1;
        }
        assert(actions@.take(actions@.len() as int) =~= actions@);
    }
}

impl Desk {
    /// What every action keeps: the user's own script always, and the managed
    /// part unless the file has to be written.
    pub open spec fn keeps(self, after: Desk) -> bool {
        &&& after.prefix == self.prefix
        &&& after.suffix == self.suffix
        &&& after.script == self.script
        &&& !after.write ==> after.managed == self.managed && !self.write
    }
}

proof fn lemma_setting_keeps(desk: Desk, action: SettingsAction)
    ensures
        desk.keeps(desk.setting_changed(action)),
{
}

proof fn lemma_keybind_keeps(desk: Desk, action: SettingsAction)
    ensures
        desk.keeps(desk.keybind_changed(action)),
{
}

proof fn lemma_rule_keeps(desk: Desk, action: SettingsAction)
    ensures
        desk.keeps(desk.rule_changed(action)),
{
}

proof fn lemma_workspace_keeps(desk: Desk, action: SettingsAction)
    ensures
        desk.keeps(desk.workspace_changed(action)),
{
}

proof fn lemma_change_keeps(
    desk: Desk,
    a: Desk,
    b: Desk,
    c: Desk,
    d: Desk,
)
    requires
        desk.keeps(a),
        a.keeps(b),
        b.keeps(c),
        c.keeps(d),
    ensures
        desk.keeps(d),
{
}

/// What is not to be written has not been changed: the user's own script
/// never, and the managed part only where the file has to be written.
pub proof fn law_unwritten_means_unchanged(desk: Desk, actions: Seq<SettingsAction>)
    ensures
        desk.keeps(desk.changed_by_all(actions)),
    decreases actions.len(),
{
    if actions.len() > 0 {
        law_unwritten_means_unchanged(desk, actions.drop_last());
        let before = desk.changed_by_all(actions.drop_last());
        lemma_action_keeps(before, actions.last());
        let after = before.changed(actions.last());
        lemma_change_keeps(desk, before, after, after, after);
    }
}

proof fn lemma_action_keeps(desk: Desk, action: SettingsAction)
    ensures
        desk.keeps(desk.changed(action)),
{
    let a = desk.setting_changed(action);
    let b = a.keybind_changed(action);
    let c = b.rule_changed(action);
    let d = c.workspace_changed(action);
    lemma_setting_keeps(desk, action);
    lemma_keybind_keeps(a, action);
    lemma_rule_keeps(b, action);
    lemma_workspace_keeps(c, action);
    lemma_change_keeps(desk, a, b, c, d);
}

// --- What the window shows ---

/// A display to choose for a workspace.
#[derive(Debug)]
pub struct WorkspaceDisplayOption {
    pub display_id: u32,
    pub label: String,
}

/// What the settings window shows.
#[derive(Debug)]
pub struct SettingsSnapshot {
    pub gap_inner: i64,
    pub gap_outer: i64,
    pub bar_height: i64,
    pub border_width: i64,
    pub border_radius: i64,
    pub border_color_focused: String,
    pub border_color_unfocused: String,
    pub focus_follows_mouse: bool,
    pub mouse_follows_focus: bool,
    pub mod_key: String,
    pub keybinds: Vec<KeybindRow>,
    pub selected_keybind_id: Option<String>,
    pub rules: Vec<RuleRow>,
    pub selected_rule_id: Option<String>,
    pub workspaces: Vec<WorkspaceRow>,
    pub selected_workspace_id: Option<String>,
    pub displays: Vec<WorkspaceDisplayOption>,
}

/// How a display is called.
pub open spec fn display_label(index: nat, id: u32) -> Seq<char> {
    "Display "@ + decimal(index + 1) + " ("@ + decimal(id as nat) + ")"@
}

pub open spec fn display_views(s: Seq<WorkspaceDisplayOption>) -> Seq<(u32, Seq<char>)> {
    Seq::new(s.len(), |i: int| (s[i].display_id, s[i].label@))
}

/// The displays to choose from.
pub open spec fn display_options(monitors: Seq<Monitor>) -> Seq<(u32, Seq<char>)> {
    Seq::new(monitors.len(), |i: int| (monitors[i].id, display_label(i as nat, monitors[i].id)))
}

fn list_displays(monitors: &Vec<Monitor>) -> (r: Vec<WorkspaceDisplayOption>)
    ensures
        display_views(r@) == display_options(monitors@),
{
    let ghost all = display_options(monitors@);
    let mut options: Vec<WorkspaceDisplayOption> = Vec::new();
    let mut i: usize = 0;
    while i < monitors.len()
        invariant
            all == display_options(monitors@),
            i <= monitors@.len(),
            display_views(options@) == all.take(i as int),
        decreases monitors.len() - i,
    {
        let ghost before = display_views(options@);
        let mut label = copy("Display ");
        label.push_str(integer(i as i128 + 1).as_str());
        label.push_str(" (");
        label.push_str(number(monitors[i].id as u64).as_str());
        label.push_str(")");
        options.push(WorkspaceDisplayOption { display_id: monitors[i].id, label });
        assert(display_views(options@) =~= before.push(all[i as int]));
        assert(all.take(i + 1) =~= all.take(i as int).push(all[i as int]));
        i = i + 1;
    }
    assert(all.take(all.len() as int) =~= all);
    options
}

impl SettingsSnapshot {
    /// The settings shown.
    pub open spec fn shows_setup(self, setup: Setup) -> bool {
        &&& self.gap_inner == setup.gap_inner
        &&& self.gap_outer == setup.gap_outer
        &&& self.bar_height == setup.bar_height
        &&& self.border_width == setup.border_width
        &&& self.border_radius == setup.border_radius
        &&& self.border_color_focused@ == setup.border_color_focused
        &&& self.border_color_unfocused@ == setup.border_color_unfocused
        &&& self.focus_follows_mouse == setup.focus_follows_mouse
        &&& self.mouse_follows_focus == setup.mouse_follows_focus
        &&& self.mod_key@ == modifier_name(setup.mod_key)
    }
}

/// What the window shows of a file. What was selected before stays selected
/// where it is still there.
pub fn build_settings_snapshot(
    doc: &ManagedConfigDocument,
    previous_keybind: Option<&str>,
    previous_rule: Option<&str>,
    previous_workspace: Option<&str>,
    monitors: &Vec<Monitor>,
) -> (r: SettingsSnapshot)
    ensures
        r.shows_setup(doc.managed@.setup),
        bind_row_views(r.keybinds@) == resolved_rows(
            doc.managed@,
            doc.effective@,
            doc.effective@.setup.mod_key,
        ),
        opt_view(r.selected_keybind_id) == selected(
            bind_marks(bind_row_views(r.keybinds@)),
            opt_text(previous_keybind),
        ),
        rule_entries(r.rules@) == rule_list(doc.managed@.rules, ConfigSource::Managed) + rule_list(
            left_out(doc.effective@.rules, doc.managed@.rules),
            ConfigSource::Lua,
        ),
        opt_view(r.selected_rule_id) == selected(
            rule_marks(rule_entries(r.rules@)),
            opt_text(previous_rule),
        ),
        ws_row_views(r.workspaces@) == ws_rows(doc.managed@, doc.effective@),
        opt_view(r.selected_workspace_id) == selected(
            ws_marks(ws_row_views(r.workspaces@)),
            opt_text(previous_workspace),
        ),
        display_views(r.displays@) == display_options(monitors@),
{
    let keybinds = doc.resolved_keybind_rows(doc.effective.settings.mod_key);
    let selected_keybind_id = resolve_selected_keybind_id(&keybinds, previous_keybind);
    let rules = doc.rule_rows();
    let selected_rule_id = resolve_selected_rule_id(&rules, previous_rule);
    let workspaces = doc.workspace_rows();
    let selected_workspace_id = resolve_selected_workspace_id(&workspaces, previous_workspace);
    let settings = &doc.managed.settings;
    SettingsSnapshot {
        gap_inner: settings.gap_inner,
        gap_outer: settings.gap_outer,
        bar_height: settings.bar_height,
        border_width: settings.border_width,
        border_radius: settings.border_radius,
        border_color_focused: copy(settings.border_color_focused.as_str()),
        border_color_unfocused: copy(settings.border_color_unfocused.as_str()),
        focus_follows_mouse: settings.focus_follows_mouse,
        mouse_follows_focus: settings.mouse_follows_focus,
        mod_key: copy(name_of_modifier(settings.mod_key)),
        keybinds,
        selected_keybind_id,
        rules,
        selected_rule_id,
        workspaces,
        selected_workspace_id,
        displays: list_displays(monitors),
    }
}

} // verus!
