//! Keybinds and rules as a script writes them.
use tarmac::config::keybinds::{
    default_keybinds, format_action, format_key_spec, key_name, lua_string, parse_action,
    parse_key_spec, parse_keybind,
};
use tarmac::config::rules::{RuleMatchMode, RulePattern, WindowRule};
use tarmac::config::settings::Settings;
use tarmac::wm::geometry::Direction;
use tarmac::wm::input::{Action, Key, Modifiers};
use tarmac::wm::workspace::WorkspaceTarget;

#[test]
fn parse_key_spec_simple() {
    let (mods, key) = parse_key_spec("mod+h", Modifiers::command()).unwrap();
    assert_eq!(mods, Modifiers::command());
    assert_eq!(key, Key::H);
}

#[test]
fn parse_key_spec_shift() {
    let (mods, key) = parse_key_spec("mod+shift+q", Modifiers::command()).unwrap();
    assert_eq!(mods, Modifiers::command().union(Modifiers::shift()));
    assert_eq!(key, Key::Q);
}

#[test]
fn parse_key_spec_number() {
    let (mods, key) = parse_key_spec("mod+3", Modifiers::option()).unwrap();
    assert_eq!(mods, Modifiers::option());
    assert_eq!(key, Key::Num3);
}

#[test]
fn parse_action_focus() {
    let action = parse_action("focus left").unwrap();
    assert_eq!(action, Action::Focus(Direction::Left));
}

#[test]
fn parse_action_workspace() {
    let action = parse_action("workspace 5").unwrap();
    assert_eq!(action, Action::Workspace(WorkspaceTarget::Numbered(5)));
}

#[test]
fn parse_action_lettered_workspace() {
    let action = parse_action("workspace w").unwrap();
    assert_eq!(action, Action::Workspace(WorkspaceTarget::Lettered('W')));
}

#[test]
fn parse_action_simple() {
    assert_eq!(parse_action("equalize").unwrap(), Action::Equalize);
    assert_eq!(parse_action("close").unwrap(), Action::CloseWindow);
    assert_eq!(parse_action("toggle_float").unwrap(), Action::ToggleFloat);
    assert_eq!(parse_action("promote_stack").unwrap(), Action::PromoteStack);
}

#[test]
fn format_action_round_trip() {
    let action = Action::MoveToWorkspace(WorkspaceTarget::Lettered('C'));
    assert_eq!(format_action(&action), "move_to_workspace C");
}

#[test]
fn rule_pattern_matches_respect_mode() {
    assert!(RulePattern::new("Safari", RuleMatchMode::Exact).matches("safari"));
    assert!(RulePattern::new("Saf", RuleMatchMode::Contains).matches("Safari"));
    assert!(RulePattern::new("^pro.*$", RuleMatchMode::Regex).matches("Profile"));
    assert!(!RulePattern::new("Safari", RuleMatchMode::Exact).matches("Safari Tech"));
}

#[test]
fn default_keybinds_count() {
    let binds = default_keybinds(&Settings::default());
    // 4 basic + 12 focus + 12 swap + 4 resize + 20 workspaces = 52
    assert!(binds.len() >= 40);
}

#[test]
fn texts_that_are_no_keybind() {
    assert_eq!(parse_action("dance").unwrap_err(), "unknown action");
    assert!(parse_action("focus sideways").is_err());
    assert!(parse_key_spec("mod+nokey", Modifiers::command()).is_err());
    assert!(parse_key_spec("mod+shift", Modifiers::command()).is_err());
    assert!(parse_keybind("mod+h", "dance", Modifiers::command()).is_err());
}

#[test]
fn every_action_is_read_back() {
    for text in [
        "spawn_terminal",
        "close",
        "focus up",
        "swap down",
        "resize left",
        "equalize",
        "workspace 7",
        "move_to_workspace Q",
        "toggle_float",
        "unstack",
        "promote_stack",
        "toggle_special term",
        "reload",
        "exit",
    ] {
        let action = parse_action(text).expect(text);
        assert_eq!(parse_action(&format_action(&action)), Ok(action));
    }
}

#[test]
fn every_default_keybind_is_read_back() {
    let settings = Settings::default();
    for bind in default_keybinds(&settings) {
        let text = format_key_spec(bind.modifiers, bind.key, settings.mod_key);
        assert_eq!(
            parse_key_spec(&text, settings.mod_key),
            Ok((bind.modifiers, bind.key))
        );
    }
    assert_eq!(
        format_key_spec(
            Modifiers::control().union(Modifiers::shift()),
            Key::Return,
            Modifiers::command()
        ),
        "shift+ctrl+return"
    );
    assert_eq!(key_name(Key::Grave), "grave");
}

#[test]
fn quotes_and_backslashes_are_escaped() {
    assert_eq!(lua_string("a\"b\\c"), "\"a\\\"b\\\\c\"");
}

#[test]
fn patterns_fold_case_and_search() {
    assert!(RulePattern::new("\u{c9}COLE", RuleMatchMode::Contains).matches("\u{e9}cole"));
    assert!(RulePattern::new("term|code", RuleMatchMode::Regex).matches("VS CODE"));
    assert!(!RulePattern::new("^code", RuleMatchMode::Regex).matches("vs code"));
    // Not a regular expression: it matches nothing.
    assert!(!RulePattern::new("a(b", RuleMatchMode::Regex).matches("xa(bx"));
    assert_eq!(
        RulePattern::from_legacy("/x.*/", RuleMatchMode::Contains).legacy_display(),
        "/x.*/"
    );
}

#[test]
fn a_rule_matches_when_all_its_patterns_do() {
    let mut rule = WindowRule::new();
    rule.app_name = Some(RulePattern::new("Safari", RuleMatchMode::Exact));
    rule.title = Some(RulePattern::new("profile", RuleMatchMode::Contains));
    assert!(rule.matches_window("safari", "com.apple.Safari", "My Profile"));
    assert!(!rule.matches_window("safari", "com.apple.Safari", "Start"));
    rule.enabled = false;
    assert!(!rule.matches_window("safari", "com.apple.Safari", "My Profile"));
}
