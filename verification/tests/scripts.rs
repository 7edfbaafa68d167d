//! Configuration scripts, run by Lua and read by the library.
use mlua::{Lua, Table, Value, Variadic};
use std::cell::RefCell;
use std::rc::Rc;
use tarmac::config::lua::{
    LuaConfig, LuaNumber, LuaText, LuaValue, SpecialOptions, WorkspaceOptions,
};
use tarmac::config::rules::{RuleMatchMode, RulePattern, WindowRule};
use tarmac::config::writing::serialize_rules;
use tarmac::wm::input::{Action, Modifiers};
use tarmac::wm::workspace::WorkspaceId;

fn thousandths(v: f64) -> i64 {
    (v * 1000.0).round() as i64
}

fn plain_value(lua: &Lua, value: &Value) -> LuaValue {
    match value {
        Value::Nil => LuaValue::Nil,
        Value::Boolean(b) => LuaValue::Boolean(*b),
        Value::Integer(i) => LuaValue::Integer(*i),
        Value::Number(n) => LuaValue::Number(LuaNumber {
            text: n.to_string(),
            thousandths: thousandths(*n),
            is_positive: *n > 0.0,
            byte: *n as u8,
        }),
        Value::String(s) => LuaValue::Text(LuaText {
            text: s.to_string_lossy().to_string(),
            thousandths: lua
                .coerce_number(value.clone())
                .ok()
                .flatten()
                .map(thousandths),
        }),
        Value::Table(t) => LuaValue::Table(
            t.pairs::<String, Value>()
                .flatten()
                .map(|(k, v)| (k, plain_value(lua, &v)))
                .collect(),
        ),
        _ => LuaValue::Other,
    }
}

fn load_config_from_source(source: &str, chunk_name: &str) -> LuaConfig {
    let config = Rc::new(RefCell::new(LuaConfig::start()));
    let lua = Lua::new();
    let gar = lua.create_table().unwrap();

    let sink = Rc::clone(&config);
    let set = lua
        .create_function(move |lua, (key, value): (String, Value)| {
            let description = format!("{:?}", value);
            sink.borrow_mut().set(&key, &plain_value(lua, &value), &description);
            Ok(())
        })
        .unwrap();
    gar.set("set", set).unwrap();

    let sink = Rc::clone(&config);
    let bind = lua
        .create_function(move |_, (keys, action): (String, String)| {
            let _ = sink.borrow_mut().bind(&keys, &action);
            Ok(())
        })
        .unwrap();
    gar.set("bind", bind).unwrap();

    let sink = Rc::clone(&config);
    let rule = lua
        .create_function(move |lua, args: Variadic<Value>| {
            let args: Vec<LuaValue> = args.iter().map(|v| plain_value(lua, v)).collect();
            sink.borrow_mut().rule(&args).map_err(mlua::Error::runtime)
        })
        .unwrap();
    gar.set("rule", rule).unwrap();

    let sink = Rc::clone(&config);
    let special = lua
        .create_function(move |_, (name, opts): (String, Option<Table>)| {
            let options = opts.map(|t| SpecialOptions {
                position: t.get::<String>("position").ok(),
                width: t.get::<f64>("width").ok().map(thousandths),
                height: t.get::<f64>("height").ok().map(thousandths),
            });
            sink.borrow_mut().special_workspace(&name, &options);
            Ok(())
        })
        .unwrap();
    gar.set("special_workspace", special).unwrap();

    let sink = Rc::clone(&config);
    let workspace = lua
        .create_function(move |lua, (id, opts): (Value, Option<Table>)| {
            let options = opts.map(|t| WorkspaceOptions {
                monitor: t.get::<u32>("monitor").ok(),
                layout: t.get::<String>("layout").ok(),
                gap_inner: t.get::<f64>("gap_inner").ok().map(thousandths),
                gap_outer: t.get::<f64>("gap_outer").ok().map(thousandths),
            });
            let id = plain_value(lua, &id);
            sink.borrow_mut().workspace(&id, &options).map_err(mlua::Error::runtime)
        })
        .unwrap();
    gar.set("workspace", workspace).unwrap();

    lua.globals().set("gar", gar).unwrap();
    let _ = lua.load(source).set_name(chunk_name).exec();
    drop(lua);
    Rc::try_unwrap(config).unwrap().into_inner().finish()
}

#[test]
fn parse_structured_rule_with_modes_and_metadata() {
    let config = load_config_from_source(
        r#"
            gar.rule({
                id = "rule_browser",
                name = "Browser",
                enabled = false,
                match = {
                    app_name = { value = "Safari", mode = "exact" },
                    title = { value = "Profile .*", mode = "regex" },
                },
                actions = {
                    floating = true,
                    workspace = "special:web",
                    geometry = { x = 10, y = 20, width = 1100, height = 800 },
                },
            })
        "#,
        "structured-rule",
    );

    let rule = config.rules.first().expect("structured rule missing");
    assert_eq!(rule.id.as_deref(), Some("rule_browser"));
    assert_eq!(rule.name.as_deref(), Some("Browser"));
    assert!(!rule.enabled);
    assert_eq!(
        rule.app_name,
        Some(RulePattern::new("Safari", RuleMatchMode::Exact))
    );
    assert_eq!(
        rule.title,
        Some(RulePattern::new("Profile .*", RuleMatchMode::Regex))
    );
    assert_eq!(rule.workspace.as_deref(), Some("special:web"));
    assert_eq!(
        rule.geometry,
        Some((
            thousandths(10.0),
            thousandths(20.0),
            thousandths(1100.0),
            thousandths(800.0)
        ))
    );
}

#[test]
fn parse_legacy_rule_infers_regex_mode() {
    let config = load_config_from_source(
        r#"gar.rule({ title = "/Preferences.*/" }, { floating = true })"#,
        "legacy-rule",
    );

    let rule = config.rules.first().expect("legacy rule missing");
    assert_eq!(
        rule.title,
        Some(RulePattern::new("Preferences.*", RuleMatchMode::Regex))
    );
    assert_eq!(rule.floating, Some(true));
}

#[test]
fn serialize_rules_round_trips_through_lua_loader() {
    let rules = vec![WindowRule {
        id: Some("rule_browser".to_string()),
        name: Some("Browser".to_string()),
        enabled: false,
        app_name: Some(RulePattern::new("Safari", RuleMatchMode::Exact)),
        app_bundle: None,
        title: Some(RulePattern::new("Profile .*", RuleMatchMode::Regex)),
        floating: Some(true),
        workspace: Some("special:web".to_string()),
        geometry: Some((
            thousandths(10.0),
            thousandths(20.0),
            thousandths(1100.0),
            thousandths(800.0),
        )),
    }];

    let serialized = serialize_rules(&rules);
    let parsed = load_config_from_source(&serialized, "rules-roundtrip").rules;
    assert_eq!(parsed, rules);
}

#[test]
fn a_script_sets_binds_and_defines() {
    let config = load_config_from_source(
        r#"
            gar.set("mod_key", "option")
            gar.set("gap_inner", 7.5)
            gar.set("focus_follows_mouse", false)
            gar.bind("mod+shift+q", "close")
            gar.bind("mod+nothing", "close")
            gar.special_workspace("term", { position = "top", width = 3, height = 0.25 })
            gar.workspace("w", { monitor = 42, layout = "bsp", gap_inner = -1 })
            gar.workspace(2, { gap_outer = 4 })
        "#,
        "whole",
    );
    assert_eq!(config.settings.mod_key, Modifiers::option());
    assert_eq!(config.settings.gap_inner, 7500);
    assert!(!config.settings.focus_follows_mouse);
    assert_eq!(config.keybinds.len(), 1);
    assert_eq!(config.keybinds[0].action, Action::CloseWindow);
    assert_eq!(
        config.keybinds[0].modifiers,
        Modifiers::option().union(Modifiers::shift())
    );
    assert_eq!(config.special_configs[0].position, "top");
    assert_eq!(config.special_configs[0].width, 1000);
    assert_eq!(config.special_configs[0].height, 250);
    assert_eq!(config.workspace_defs.len(), 11);
    let lettered = config
        .workspace_defs
        .iter()
        .find(|d| d.id == WorkspaceId::Lettered('W'))
        .expect("workspace W missing");
    assert_eq!(lettered.prefs.monitor.map(|m| m.display_id), Some(42));
    assert_eq!(lettered.prefs.gap_inner, Some(0));
    let second = config
        .workspace_defs
        .iter()
        .find(|d| d.id == WorkspaceId::Numbered(2))
        .expect("workspace 2 missing");
    assert_eq!(second.prefs.gap_outer, Some(4000));
}

#[test]
fn a_script_stops_at_a_rule_it_cannot_read() {
    let config = load_config_from_source(
        r#"
            gar.rule({ title = "kept" }, { floating = true })
            gar.rule({ title = function() end }, { floating = true })
            gar.set("gap_inner", 9)
        "#,
        "broken-rule",
    );
    assert_eq!(config.rules.len(), 1);
    assert_eq!(config.settings.gap_inner, 0);
    assert!(config.keybinds.len() >= 40);
}

#[test]
fn a_workspace_needs_a_name() {
    let mut config = LuaConfig::start();
    assert!(config.workspace(&LuaValue::Integer(0), &None).is_err());
    assert!(config.workspace(&LuaValue::Boolean(true), &None).is_err());
    assert!(config.workspace(&LuaValue::Integer(3), &None).is_ok());
    assert!(config.rule(&vec![]).is_err());
    assert!(config.rule(&vec![LuaValue::Integer(1)]).is_err());
}

#[test]
fn callbacks_of_an_event_are_found_in_order() {
    let mut config = LuaConfig::start();
    config.on("reload", 4);
    config.on("workspace_changed", 5);
    config.on("reload", 6);
    assert_eq!(config.fire_event("reload"), vec![4, 6]);
    assert_eq!(config.fire_event("exit"), Vec::<usize>::new());
}
