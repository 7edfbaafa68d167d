//! The settings and how a script changes them.
use tarmac::config::settings::Settings;
use tarmac::wm::input::Modifiers;

fn thousandths(v: f64) -> i64 {
    (v * 1000.0).round() as i64
}

#[test]
fn default_settings() {
    let s = Settings::default();
    assert_eq!(s.gap_inner, thousandths(0.0));
    assert!(s.focus_follows_mouse);
    assert_eq!(s.mod_key, Modifiers::command());
}

#[test]
fn set_gap() {
    let mut s = Settings::default();
    s.set("gap_inner", "12");
    assert_eq!(s.gap_inner, thousandths(12.0));
}

#[test]
fn set_mod_key() {
    let mut s = Settings::default();
    s.set("mod_key", "option");
    assert_eq!(s.mod_key, Modifiers::option());
}

#[test]
fn set_unknown_ignored() {
    let mut s = Settings::default();
    s.set("nonexistent", "value");
    // No panic, no change
    assert_eq!(s.gap_inner, thousandths(0.0));
}

#[test]
fn malformed_numbers_are_ignored() {
    let mut s = Settings::default();
    s.set("gap_inner", "2.5");
    assert_eq!(s.gap_inner, 2500);
    s.set("gap_inner", "wide");
    assert_eq!(s.gap_inner, 2500);
    s.set("gap_outer", "1e1");
    assert_eq!(s.gap_outer, 10_000);
}

#[test]
fn switches_texts_and_colors() {
    let mut s = Settings::default();
    s.set("focus_follows_mouse", "false");
    assert!(!s.focus_follows_mouse);
    s.set("terminal", "open -na Terminal");
    assert_eq!(s.terminal_command, "open -na Terminal");
    s.set("border_color_focused", "#010203");
    assert_eq!(s.border_color_focused, "#010203");
}
