//! The configuration file: the part that the settings window writes, and the
//! rows that it shows.
use tarmac::config::document::{
    serialize_managed, split_managed_block, ManagedConfig, ManagedConfigDocument,
};
use tarmac::config::keybinds::{default_keybinds, LuaKeybind};
use tarmac::config::lua::{default_workspace_definitions, LuaConfig};
use tarmac::config::rows::{keybind_signature, ConfigSource};
use tarmac::config::rules::{RuleMatchMode, RulePattern, WindowRule};
use tarmac::config::settings::Settings;
use tarmac::config::special::SpecialWorkspaceConfig;
use tarmac::wm::input::{Action, Key, Modifiers};
use tarmac::wm::workspace::{
    MonitorAssignment, WorkspaceDefinition, WorkspaceId, WorkspaceKind, WorkspaceLayout,
    WorkspacePrefs, WorkspaceTarget,
};

fn thousandths(v: f64) -> i64 {
    (v * 1000.0).round() as i64
}

#[test]
fn splits_and_rewrites_managed_block() {
    let content =
        "print('hi')\n-- BEGIN TARMAC SETTINGS\nold\n-- END TARMAC SETTINGS\nprint('bye')\n";
    let (prefix, managed, suffix) = split_managed_block(content);
    assert_eq!(prefix, "print('hi')\n");
    assert!(managed.unwrap().contains("old"));
    assert_eq!(suffix, "print('bye')\n");
}

#[test]
fn serializes_keybinds_and_workspaces() {
    let mut managed = ManagedConfig {
        settings: Settings::default(),
        keybinds: vec![LuaKeybind {
            modifiers: Modifiers::command(),
            key: Key::W,
            action: Action::Workspace(WorkspaceTarget::Lettered('W')),
        }],
        rules: Vec::new(),
        special_configs: Vec::new(),
        workspace_defs: vec![WorkspaceDefinition {
            id: WorkspaceId::Lettered('W'),
            kind: WorkspaceKind::Lettered,
            prefs: Default::default(),
        }],
    };
    managed.settings.mod_key = Modifiers::command();
    let text = serialize_managed(&managed);
    assert!(text.contains("gar.bind(\"mod+w\", \"workspace W\")"));
    assert!(text.contains("gar.workspace(\"W\","));
}

#[test]
fn serializes_structured_rules() {
    let managed = ManagedConfig {
        settings: Settings::default(),
        keybinds: Vec::new(),
        rules: vec![WindowRule {
            id: Some("rule_browser".to_string()),
            name: Some("Browser".to_string()),
            enabled: false,
            app_name: Some(RulePattern::new("Safari", RuleMatchMode::Exact)),
            app_bundle: None,
            title: Some(RulePattern::new("Profile .*", RuleMatchMode::Regex)),
            floating: Some(true),
            workspace: Some("special:web".to_string()),
            geometry: Some((
                thousandths(10.0),
                thousandths(20.0),
                thousandths(1100.0),
                thousandths(800.0),
            )),
        }],
        special_configs: Vec::new(),
        workspace_defs: Vec::new(),
    };

    let text = serialize_managed(&managed);
    assert!(text.contains("id = \"rule_browser\""));
    assert!(text.contains("name = \"Browser\""));
    assert!(text.contains("enabled = false"));
    assert!(text.contains("app_name = { value = \"Safari\", mode = \"exact\" }"));
    assert!(text.contains("title = { value = \"Profile .*\", mode = \"regex\" }"));
    assert!(text.contains("workspace = \"special:web\""));
}

#[test]
fn keybind_rows_preserve_sources_and_formatting() {
    let settings = Settings::default();
    let managed_keybind = LuaKeybind {
        modifiers: Modifiers::command().union(Modifiers::shift()),
        key: Key::Period,
        action: Action::Reload,
    };
    let default_keybind = default_keybinds(&settings)[0].clone();
    let lua_keybind = LuaKeybind {
        modifiers: Modifiers::option().union(Modifiers::shift()),
        key: Key::Period,
        action: Action::Exit,
    };
    let doc = ManagedConfigDocument {
        prefix: String::new(),
        suffix: String::new(),
        managed: ManagedConfig {
            settings: settings.clone(),
            keybinds: vec![managed_keybind.clone()],
            rules: Vec::new(),
            special_configs: Vec::new(),
            workspace_defs: Vec::new(),
        },
        effective: LuaConfig {
            settings,
            keybinds: vec![managed_keybind, default_keybind, lua_keybind],
            rules: Vec::new(),
            special_configs: Vec::new(),
            workspace_defs: Vec::new(),
            callbacks: Vec::new(),
        },
    };

    let rows = doc.keybind_rows(Modifiers::command());

    assert_eq!(rows.len(), 3);
    assert_eq!(rows[0].source, ConfigSource::Managed);
    assert_eq!(rows[0].shortcut, "mod+shift+period");
    assert_eq!(rows[0].action, "reload");
    assert_eq!(rows[1].source, ConfigSource::Default);
    assert_eq!(rows[2].source, ConfigSource::Lua);
    assert!(!rows[2].editable);
}

#[test]
fn resolved_keybind_rows_prefer_managed_then_lua_then_default() {
    let settings = Settings::default();
    let duplicate = LuaKeybind {
        modifiers: Modifiers::command(),
        key: Key::Return,
        action: Action::SpawnTerminal,
    };
    let managed_override = LuaKeybind {
        modifiers: Modifiers::command(),
        key: Key::Return,
        action: Action::Reload,
    };
    let default_only = default_keybinds(&settings)[1].clone();
    let lua_only = LuaKeybind {
        modifiers: Modifiers::option(),
        key: Key::W,
        action: Action::Exit,
    };

    let doc = ManagedConfigDocument {
        prefix: String::new(),
        suffix: String::new(),
        managed: ManagedConfig {
            settings: settings.clone(),
            keybinds: vec![managed_override.clone()],
            rules: Vec::new(),
            special_configs: Vec::new(),
            workspace_defs: Vec::new(),
        },
        effective: LuaConfig {
            settings,
            keybinds: vec![
                managed_override,
                duplicate,
                default_only.clone(),
                lua_only.clone(),
            ],
            rules: Vec::new(),
            special_configs: Vec::new(),
            workspace_defs: Vec::new(),
            callbacks: Vec::new(),
        },
    };

    let rows = doc.resolved_keybind_rows(Modifiers::command());

    // Managed override takes priority
    assert_eq!(rows[0].source, ConfigSource::Managed);
    assert_eq!(rows[0].action, "reload");
    // Lua-only bind is preserved
    assert!(rows.iter().any(|row| row.keybind == lua_only));
    // Default-only bind is preserved
    assert!(rows.iter().any(|row| row.keybind == default_only));
    // Managed signature (Cmd+Return) is NOT duplicated by default/lua layer
    assert!(!rows.iter().any(|row| {
        row.source != ConfigSource::Managed
            && row.keybind.modifiers == Modifiers::command()
            && row.keybind.key == Key::Return
    }));
    // All default keybinds are present as fallbacks
    let all_defaults = default_keybinds(&doc.effective.settings);
    for default_kb in &all_defaults {
        let sig = keybind_signature(default_kb);
        assert!(
            rows.iter()
                .any(|row| keybind_signature(&row.keybind) == sig),
            "missing default keybind: {:?}+{:?}",
            default_kb.modifiers,
            default_kb.key,
        );
    }
}

#[test]
fn workspace_rows_prefer_managed_numbered_override() {
    let managed_def = WorkspaceDefinition {
        id: WorkspaceId::Numbered(3),
        kind: WorkspaceKind::Numbered,
        prefs: WorkspacePrefs {
            monitor: None,
            default_layout: WorkspaceLayout::Bsp,
            gap_inner: Some(thousandths(20.0)),
            gap_outer: None,
        },
    };
    let lua_def = WorkspaceDefinition {
        id: WorkspaceId::Numbered(3),
        kind: WorkspaceKind::Numbered,
        prefs: WorkspacePrefs {
            monitor: None,
            default_layout: WorkspaceLayout::Bsp,
            gap_inner: Some(thousandths(8.0)),
            gap_outer: None,
        },
    };
    let doc = ManagedConfigDocument {
        prefix: String::new(),
        suffix: String::new(),
        managed: ManagedConfig {
            settings: Settings::default(),
            keybinds: Vec::new(),
            rules: Vec::new(),
            special_configs: Vec::new(),
            workspace_defs: vec![managed_def.clone()],
        },
        effective: LuaConfig {
            settings: Settings::default(),
            keybinds: Vec::new(),
            rules: Vec::new(),
            special_configs: Vec::new(),
            workspace_defs: {
                let mut defs = default_workspace_definitions();
                defs.retain(|def| def.id != WorkspaceId::Numbered(3));
                defs.push(lua_def);
                defs
            },
            callbacks: Vec::new(),
        },
    };

    let rows = doc.workspace_rows();
    let row = rows
        .iter()
        .find(|row| row.id == "3")
        .expect("workspace 3 row missing");
    assert_eq!(row.source, ConfigSource::Managed);
    assert_eq!(row.definition, managed_def);
    assert_eq!(rows.iter().filter(|row| row.id == "3").count(), 1);
}

#[test]
fn workspace_rows_merge_special_workspace_prefs_and_overlay() {
    let special_def = WorkspaceDefinition {
        id: WorkspaceId::Special("term".to_string()),
        kind: WorkspaceKind::Special,
        prefs: WorkspacePrefs {
            monitor: Some(MonitorAssignment { display_id: 42 }),
            default_layout: WorkspaceLayout::Bsp,
            gap_inner: Some(thousandths(12.0)),
            gap_outer: Some(thousandths(18.0)),
        },
    };
    let special_overlay = SpecialWorkspaceConfig {
        name: "term".to_string(),
        position: "top".to_string(),
        width: thousandths(0.8),
        height: thousandths(0.5),
    };
    let doc = ManagedConfigDocument {
        prefix: String::new(),
        suffix: String::new(),
        managed: ManagedConfig {
            settings: Settings::default(),
            keybinds: Vec::new(),
            rules: Vec::new(),
            special_configs: vec![special_overlay.clone()],
            workspace_defs: vec![special_def.clone()],
        },
        effective: LuaConfig {
            settings: Settings::default(),
            keybinds: Vec::new(),
            rules: Vec::new(),
            special_configs: vec![special_overlay.clone()],
            workspace_defs: {
                let mut defs = default_workspace_definitions();
                defs.push(special_def.clone());
                defs
            },
            callbacks: Vec::new(),
        },
    };

    let rows = doc.workspace_rows();
    let row = rows
        .iter()
        .find(|row| row.id == "special:term")
        .expect("special workspace row missing");
    assert_eq!(row.source, ConfigSource::Managed);
    assert_eq!(row.definition, special_def);
    assert_eq!(row.special.as_ref(), Some(&special_overlay));
}

#[test]
fn resolved_workspace_defs_and_specials_prefer_managed_special_overrides() {
    let managed_special = SpecialWorkspaceConfig {
        name: "web".to_string(),
        position: "bottom".to_string(),
        width: thousandths(0.9),
        height: thousandths(0.4),
    };
    let lua_special = SpecialWorkspaceConfig {
        name: "web".to_string(),
        position: "center".to_string(),
        width: thousandths(0.7),
        height: thousandths(0.7),
    };
    let doc = ManagedConfigDocument {
        prefix: String::new(),
        suffix: String::new(),
        managed: ManagedConfig {
            settings: Settings::default(),
            keybinds: Vec::new(),
            rules: Vec::new(),
            special_configs: vec![managed_special.clone()],
            workspace_defs: Vec::new(),
        },
        effective: LuaConfig {
            settings: Settings::default(),
            keybinds: Vec::new(),
            rules: Vec::new(),
            special_configs: vec![lua_special],
            workspace_defs: default_workspace_definitions(),
            callbacks: Vec::new(),
        },
    };

    let (_, specials) = doc.resolved_workspace_defs_and_specials();
    assert_eq!(specials, vec![managed_special]);
}

fn empty_managed() -> ManagedConfig {
    ManagedConfig {
        settings: Settings::default(),
        keybinds: Vec::new(),
        rules: Vec::new(),
        special_configs: Vec::new(),
        workspace_defs: Vec::new(),
    }
}

#[test]
fn a_written_file_splits_again() {
    let content = "print('hi')\n-- BEGIN TARMAC SETTINGS\nold\n-- END TARMAC SETTINGS\nprint('bye')\n";
    let doc = ManagedConfigDocument::load(content, LuaConfig::start().finish(), &None);
    let written = doc.write();
    let (prefix, managed, suffix) = split_managed_block(&written);
    assert_eq!(prefix, "print('hi')\n");
    assert_eq!(suffix, "print('bye')\n");
    assert!(managed.expect("managed block missing").contains("gar.set(\"mod_key\", \"command\")"));
    assert!(!written.contains("old"));
}

#[test]
fn a_file_without_a_block_is_all_prefix() {
    let (prefix, managed, suffix) = split_managed_block("print('hi')\n");
    assert_eq!(prefix, "print('hi')\n");
    assert_eq!(managed, None);
    assert_eq!(suffix, "");
}

#[test]
fn written_numbers_and_texts_are_exact() {
    let mut managed = empty_managed();
    managed.settings.gap_inner = thousandths(7.5);
    managed.settings.terminal_command = "say \"hi\"".to_string();
    managed.special_configs = vec![SpecialWorkspaceConfig::default_for("term")];
    let text = serialize_managed(&managed);
    assert!(text.contains("gar.set(\"gap_inner\", 7.50)"), "{text}");
    assert!(text.contains("gar.set(\"terminal\", \"say \\\"hi\\\"\")"), "{text}");
    assert!(
        text.contains(
            "gar.special_workspace(\"term\", { position = \"center\", width = 0.70, height = 0.70 })"
        ),
        "{text}"
    );
}

#[test]
fn managed_rules_come_before_those_of_the_script() {
    let mut managed = empty_managed();
    let mut rule = WindowRule::new();
    rule.name = Some("Mine".to_string());
    managed.rules.push(rule.clone());
    let mut effective = LuaConfig::start().finish();
    effective.rules.push(rule);
    let mut other = WindowRule::new();
    other.title = Some(RulePattern::new("Save", RuleMatchMode::Contains));
    effective.rules.push(other);
    let doc = ManagedConfigDocument {
        prefix: String::new(),
        suffix: String::new(),
        managed,
        effective,
    };
    let rows = doc.rule_rows();
    assert_eq!(rows.len(), 2);
    assert_eq!(rows[0].source, ConfigSource::Managed);
    assert_eq!(rows[0].name, "Mine");
    assert_eq!(rows[1].source, ConfigSource::Lua);
    assert!(!rows[1].editable);
    assert!(!rows[1].when_summary().is_empty());
}
