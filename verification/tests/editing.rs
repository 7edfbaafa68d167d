//! What the settings window does to the managed part of the configuration.
use tarmac::config::document::ManagedConfigDocument;
use tarmac::config::keybinds::LuaKeybind;
use tarmac::config::lua::LuaConfig;
use tarmac::config::rows::{ConfigSource, KeybindRow, RuleRow, WorkspaceRow};
use tarmac::config::rules::WindowRule;
use tarmac::config::special::SpecialWorkspaceConfig;
use tarmac::session::tray::workspace_last_active_title;
use tarmac::ui::editing::{
    add_managed_keybind, copy_keybind_to_managed, delete_managed_keybind,
    fallback_selected_keybind_after_delete, fallback_selected_rule_after_delete,
    fallback_selected_workspace_after_delete, resolve_selected_keybind_id,
    resolve_selected_rule_id, resolve_selected_workspace_id,
};
use tarmac::ui::rule_editing::{
    add_managed_rule, delete_managed_rule, duplicate_managed_rule, move_managed_rule_down,
    move_managed_rule_up, toggle_managed_rule_enabled,
};
use tarmac::ui::settings::{build_settings_snapshot, SettingsAction, SettingsSession};
use tarmac::ui::workspace_editing::{
    add_managed_lettered_workspace, add_managed_special_workspace, copy_workspace_to_managed,
    delete_managed_workspace,
};
use tarmac::wm::input::{Action, Key, Modifiers};
use tarmac::wm::window::{WindowRegistry, WindowState};
use tarmac::wm::workspace::{Workspace, WorkspaceDefinition, WorkspaceId, WorkspaceKind};

fn thousandths(v: f64) -> i64 {
    (v * 1000.0).round() as i64
}

fn sample_keybind(key: Key) -> LuaKeybind {
    LuaKeybind {
        modifiers: Modifiers::command().union(Modifiers::shift()),
        key,
        action: Action::Reload,
    }
}

fn sample_keybind_row(id: &str, editable: bool) -> KeybindRow {
    KeybindRow {
        id: id.to_string(),
        shortcut: "mod+shift+period".to_string(),
        action: "reload".to_string(),
        source: if editable {
            ConfigSource::Managed
        } else {
            ConfigSource::Lua
        },
        editable,
        keybind: sample_keybind(Key::Period),
    }
}

fn sample_rule(id: &str, name: &str) -> WindowRule {
    WindowRule {
        id: Some(id.to_string()),
        name: Some(name.to_string()),
        enabled: true,
        app_name: None,
        app_bundle: None,
        title: None,
        floating: None,
        workspace: None,
        geometry: None,
    }
}

fn sample_rule_row(id: &str, editable: bool) -> RuleRow {
    RuleRow {
        id: id.to_string(),
        name: id.to_string(),
        enabled: true,
        source: if editable {
            ConfigSource::Managed
        } else {
            ConfigSource::Lua
        },
        editable,
        rule: sample_rule(id, id),
    }
}

fn sample_workspace_row(id: &str, source: ConfigSource, kind: WorkspaceKind) -> WorkspaceRow {
    WorkspaceRow {
        id: id.to_string(),
        kind,
        source,
        editable: source == ConfigSource::Managed,
        definition: WorkspaceDefinition::new(WorkspaceId::parse(id).expect("invalid id")),
        special: (kind == WorkspaceKind::Special).then(|| SpecialWorkspaceConfig {
            name: id.trim_start_matches("special:").to_string(),
            position: "center".to_string(),
            width: thousandths(0.7),
            height: thousandths(0.7),
        }),
    }
}

fn sample_window(id: u32, app: &str, title: &str) -> WindowState {
    WindowState {
        id,
        app_pid: 100,
        app_name: app.to_string(),
        app_bundle_id: format!("com.test.{app}"),
        title: title.to_string(),
        role: "AXWindow".to_string(),
        subrole: "AXStandardWindow".to_string(),
        x: thousandths(0.0),
        y: thousandths(0.0),
        width: thousandths(800.0),
        height: thousandths(600.0),
        floating: false,
        minimized: false,
    }
}

#[test]
fn add_keybind_uses_unique_shortcut() {
    let mut keybinds = vec![sample_keybind(Key::Period)];
    let id = add_managed_keybind(&mut keybinds, Modifiers::command());
    assert_eq!(id, "managed:1");
    assert_eq!(keybinds.len(), 2);
    assert_ne!(keybinds[0].key, keybinds[1].key);
    assert_eq!(keybinds[1].action, Action::Reload);
}

#[test]
fn copy_keybind_to_managed_promotes_external_binding() {
    let rows = vec![sample_keybind_row("lua:0", false)];
    let mut keybinds = Vec::new();
    let id = copy_keybind_to_managed(&rows, &mut keybinds, "lua:0").expect("copy failed");
    assert_eq!(id, "managed:0");
    assert_eq!(keybinds.len(), 1);
    assert_eq!(keybinds[0], rows[0].keybind);
}

#[test]
fn delete_keybind_selection_falls_forward_then_backward() {
    let rows = vec![
        sample_keybind_row("managed:0", true),
        sample_keybind_row("managed:1", true),
        sample_keybind_row("lua:0", false),
    ];
    assert_eq!(
        fallback_selected_keybind_after_delete(&rows, "managed:0").as_deref(),
        Some("managed:1")
    );
    assert_eq!(
        fallback_selected_keybind_after_delete(&rows, "lua:0").as_deref(),
        Some("managed:1")
    );
}

#[test]
fn resolve_selected_keybind_prefers_existing_then_first_managed() {
    let rows = vec![
        sample_keybind_row("lua:0", false),
        sample_keybind_row("managed:0", true),
        sample_keybind_row("managed:1", true),
    ];
    assert_eq!(
        resolve_selected_keybind_id(&rows, Some("managed:1")).as_deref(),
        Some("managed:1")
    );
    assert_eq!(
        resolve_selected_keybind_id(&rows, Some("missing")).as_deref(),
        Some("managed:0")
    );
}

#[test]
fn add_rule_uses_default_contents() {
    let mut rules = vec![sample_rule("rule_001", "Existing")];
    let id = add_managed_rule(&mut rules);
    let added = rules.last().expect("missing added rule");
    assert_eq!(id, "rule_002");
    assert_eq!(added.id.as_deref(), Some("rule_002"));
    assert_eq!(added.name.as_deref(), Some("New Rule"));
    assert!(added.enabled);
}

#[test]
fn duplicate_rule_preserves_fields_but_reassigns_id() {
    let mut rules = vec![sample_rule("rule_001", "Browser")];
    let duplicated_id =
        duplicate_managed_rule(&mut rules, "rule_001").expect("duplicate failed");
    assert_eq!(duplicated_id, "rule_002");
    assert_eq!(rules.len(), 2);
    assert_eq!(rules[1].id.as_deref(), Some("rule_002"));
    assert_eq!(rules[1].name, rules[0].name);
}

#[test]
fn move_rule_up_and_down_keep_order_stable() {
    let mut rules = vec![
        sample_rule("rule_001", "One"),
        sample_rule("rule_002", "Two"),
        sample_rule("rule_003", "Three"),
    ];
    assert!(move_managed_rule_up(&mut rules, "rule_003"));
    assert_eq!(rules[1].id.as_deref(), Some("rule_003"));
    assert!(move_managed_rule_down(&mut rules, "rule_003"));
    assert_eq!(rules[2].id.as_deref(), Some("rule_003"));
}

#[test]
fn delete_rule_selection_falls_forward_then_backward() {
    let rows = vec![
        sample_rule_row("rule_001", true),
        sample_rule_row("rule_002", true),
        sample_rule_row("lua_rule", false),
    ];
    assert_eq!(
        fallback_selected_rule_after_delete(&rows, "rule_001").as_deref(),
        Some("rule_002")
    );
    assert_eq!(
        fallback_selected_rule_after_delete(&rows, "lua_rule").as_deref(),
        Some("rule_002")
    );
}

#[test]
fn resolve_selected_rule_prefers_existing_then_first_managed() {
    let rows = vec![
        sample_rule_row("lua_rule", false),
        sample_rule_row("rule_001", true),
        sample_rule_row("rule_002", true),
    ];
    assert_eq!(
        resolve_selected_rule_id(&rows, Some("rule_002")).as_deref(),
        Some("rule_002")
    );
    assert_eq!(
        resolve_selected_rule_id(&rows, Some("missing")).as_deref(),
        Some("rule_001")
    );
}

#[test]
fn add_lettered_workspace_normalizes_to_uppercase() {
    let mut defs = Vec::new();
    let id = add_managed_lettered_workspace(&mut defs, "w").expect("workspace add failed");
    assert_eq!(id, "W");
    assert_eq!(defs[0].id, WorkspaceId::Lettered('W'));
}

#[test]
fn add_special_workspace_rejects_empty_name() {
    let mut defs = Vec::new();
    let mut specials = Vec::new();
    assert!(add_managed_special_workspace(&mut defs, &mut specials, "   ").is_none());
    assert!(defs.is_empty());
    assert!(specials.is_empty());
}

#[test]
fn delete_workspace_selection_keeps_numbered_row_selected() {
    let rows = vec![
        sample_workspace_row("1", ConfigSource::Managed, WorkspaceKind::Numbered),
        sample_workspace_row("A", ConfigSource::Managed, WorkspaceKind::Lettered),
    ];
    assert_eq!(
        fallback_selected_workspace_after_delete(&rows, "1").as_deref(),
        Some("1")
    );
    assert_eq!(
        fallback_selected_workspace_after_delete(&rows, "A").as_deref(),
        Some("1")
    );
}

#[test]
fn copy_workspace_to_managed_promotes_inherited_row() {
    let rows = vec![sample_workspace_row(
        "special:term",
        ConfigSource::Lua,
        WorkspaceKind::Special,
    )];
    let mut defs = Vec::new();
    let mut specials = Vec::new();
    let id = copy_workspace_to_managed(&rows, &mut defs, &mut specials, "special:term")
        .expect("copy failed");
    assert_eq!(id, "special:term");
    assert_eq!(defs[0].id, WorkspaceId::Special("term".to_string()));
    assert_eq!(specials[0].name, "term");
}

#[test]
fn workspace_last_active_title_prefers_window_title_then_app_name() {
    let mut registry = WindowRegistry::new();
    registry.add(sample_window(1, "Firefox", "New Tab"));
    registry.add(sample_window(2, "Firefox", ""));

    let mut workspace = Workspace::new(WorkspaceId::Numbered(1));
    workspace.focused = Some(1);
    assert_eq!(
        workspace_last_active_title(&workspace, &registry).as_deref(),
        Some("New Tab")
    );

    workspace.focused = Some(2);
    assert_eq!(
        workspace_last_active_title(&workspace, &registry).as_deref(),
        Some("Firefox")
    );

    workspace.focused = Some(99);
    workspace.focus_history.clear();
    assert_eq!(workspace_last_active_title(&workspace, &registry), None);
}

fn new_session() -> SettingsSession {
    let config = LuaConfig::start().finish();
    let managed = LuaConfig::start();
    let doc = ManagedConfigDocument::load("", config, &Some(managed));
    SettingsSession::new(doc, None, None, None)
}

#[test]
fn looking_writes_nothing() {
    let mut session = new_session();
    session.poll_settings_actions(&vec![
        SettingsAction::SelectRule("rule_001".to_string()),
        SettingsAction::SelectKeybind("managed:0".to_string()),
    ]);
    assert!(!session.should_write);
    assert_eq!(session.selected_rule.as_deref(), Some("rule_001"));
}

#[test]
fn changes_are_written() {
    let mut session = new_session();
    session.poll_settings_actions(&vec![
        SettingsAction::GapInner(thousandths(12.0)),
        SettingsAction::AddRule,
        SettingsAction::AddLetteredWorkspace("w".to_string()),
        SettingsAction::AddSpecialWorkspace("term".to_string()),
    ]);
    assert!(session.should_write);
    assert_eq!(session.doc.managed.settings.gap_inner, thousandths(12.0));
    assert_eq!(session.doc.managed.rules.len(), 1);
    assert_eq!(session.selected_rule.as_deref(), Some("rule_001"));
    assert_eq!(session.selected_workspace.as_deref(), Some("special:term"));
    let text = session.doc.write();
    assert!(text.contains("gar.set(\"gap_inner\", 12"), "{text}");
    assert!(text.contains("gar.workspace(\"W\","), "{text}");
    let shown = build_settings_snapshot(&session.doc, None, Some("rule_001"), Some("W"), &vec![]);
    assert_eq!(shown.gap_inner, thousandths(12.0));
    assert_eq!(shown.selected_rule_id.as_deref(), Some("rule_001"));
    assert_eq!(shown.selected_workspace_id.as_deref(), Some("W"));
    assert!(shown.displays.is_empty());
}

#[test]
fn deleting_needs_a_managed_entry() {
    let mut keybinds = vec![sample_keybind(Key::Period)];
    assert!(!delete_managed_keybind(&mut keybinds, "lua:0"));
    assert!(!delete_managed_keybind(&mut keybinds, "managed:5"));
    assert!(delete_managed_keybind(&mut keybinds, "managed:0"));
    assert!(keybinds.is_empty());

    let mut rules = vec![sample_rule("rule_001", "One")];
    assert!(!delete_managed_rule(&mut rules, "rule_009"));
    assert!(toggle_managed_rule_enabled(&mut rules, "rule_001", false));
    assert!(!rules[0].enabled);
    assert!(!move_managed_rule_up(&mut rules, "rule_001"));
    assert!(!move_managed_rule_down(&mut rules, "rule_001"));
    assert!(delete_managed_rule(&mut rules, "rule_001"));
    assert!(rules.is_empty());
}

#[test]
fn a_deleted_special_workspace_loses_its_overlay() {
    let mut defs = Vec::new();
    let mut specials = Vec::new();
    let id = add_managed_special_workspace(&mut defs, &mut specials, " term ").expect("add failed");
    assert_eq!(id, "special:term");
    assert_eq!(specials.len(), 1);
    let rows = vec![sample_workspace_row(
        "special:term",
        ConfigSource::Managed,
        WorkspaceKind::Special,
    )];
    assert_eq!(
        resolve_selected_workspace_id(&rows, None).as_deref(),
        Some("special:term")
    );
    assert!(delete_managed_workspace(&rows, &mut defs, &mut specials, "special:term"));
    assert!(defs.is_empty());
    assert!(specials.is_empty());
}
