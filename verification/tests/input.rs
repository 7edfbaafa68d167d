//! Keys, modifiers and the keybinds that are built in.
use tarmac::wm::input::{keycode_to_key, Action, Key, KeyEvent, KeybindManager, Modifiers};

#[test]
fn keycode_mapping() {
    assert_eq!(keycode_to_key(0x24), Some(Key::Return));
    assert_eq!(keycode_to_key(0x00), Some(Key::A));
    assert_eq!(keycode_to_key(0x7B), Some(Key::Left));
    assert_eq!(keycode_to_key(0x7E), Some(Key::Up));
    assert_eq!(keycode_to_key(0xFF), None);
}

#[test]
fn dispatch_matches() {
    let mgr = KeybindManager::with_defaults();
    let event = KeyEvent {
        keycode: 0x24, // Return
        modifiers: Modifiers::option(),
    };
    assert_eq!(mgr.dispatch(&event), Some(Action::SpawnTerminal));
}

#[test]
fn dispatch_no_match() {
    let mgr = KeybindManager::with_defaults();
    let event = KeyEvent {
        keycode: 0x00, // A
        modifiers: Modifiers::empty(),
    };
    assert_eq!(mgr.dispatch(&event), None);
}

#[test]
fn dispatch_wrong_modifier() {
    let mgr = KeybindManager::with_defaults();
    let event = KeyEvent {
        keycode: 0x24,                   // Return
        modifiers: Modifiers::command(), // Wrong mod
    };
    assert_eq!(mgr.dispatch(&event), None);
}

#[test]
fn dispatch_close_window() {
    let mgr = KeybindManager::with_defaults();
    let event = KeyEvent {
        keycode: 0x0C, // Q
        modifiers: Modifiers::option().union(Modifiers::shift()),
    };
    assert_eq!(mgr.dispatch(&event), Some(Action::CloseWindow));
}

#[test]
fn the_first_keybind_of_two_wins() {
    let mut mgr = KeybindManager::new();
    mgr.add(Modifiers::control(), Key::A, Action::Reload);
    mgr.add(Modifiers::control(), Key::A, Action::Exit);
    let event = KeyEvent { keycode: 0x00, modifiers: Modifiers::control() };
    assert_eq!(mgr.dispatch(&event), Some(Action::Reload));
}

#[test]
fn modifiers_are_sets() {
    let both = Modifiers::option().union(Modifiers::shift());
    assert!(both.contains(Modifiers::shift()));
    assert!(both.contains(Modifiers::empty()));
    assert!(!both.contains(Modifiers::function()));
    assert_eq!(both.bits(), 5);
    assert!(Action::ToggleSpecial("term".to_string())
        .is(&Action::ToggleSpecial("term".to_string())));
    assert!(!Action::Reload.is(&Action::Exit));
}
