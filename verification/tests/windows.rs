//! The registry of known windows.
use tarmac::wm::window::{WindowId, WindowRegistry, WindowState};

fn thousandths(v: f64) -> i64 {
    (v * 1000.0).round() as i64
}

fn make_window(id: WindowId, app: &str, title: &str) -> WindowState {
    WindowState {
        id,
        app_pid: 100,
        app_name: app.to_string(),
        app_bundle_id: format!("com.test.{}", app),
        title: title.to_string(),
        role: "AXWindow".to_string(),
        subrole: "AXStandardWindow".to_string(),
        x: thousandths(0.0),
        y: thousandths(0.0),
        width: thousandths(800.0),
        height: thousandths(600.0),
        floating: false,
        minimized: false,
    }
}

#[test]
fn add_and_get() {
    let mut reg = WindowRegistry::new();
    reg.add(make_window(1, "Terminal", "bash"));
    assert_eq!(reg.count(), 1);
    assert!(reg.contains(1));
    assert_eq!(reg.get(1).unwrap().title, "bash");
}

#[test]
fn remove() {
    let mut reg = WindowRegistry::new();
    reg.add(make_window(1, "Terminal", "bash"));
    let removed = reg.remove(1);
    assert!(removed.is_some());
    assert_eq!(reg.count(), 0);
}

#[test]
fn remove_by_pid() {
    let mut reg = WindowRegistry::new();
    let mut w1 = make_window(1, "Terminal", "tab1");
    w1.app_pid = 200;
    let mut w2 = make_window(2, "Terminal", "tab2");
    w2.app_pid = 200;
    reg.add(w1);
    reg.add(w2);
    reg.add(make_window(3, "Safari", "web"));

    let removed = reg.remove_by_pid(200);
    assert_eq!(removed.len(), 2);
    assert_eq!(reg.count(), 1);
}

#[test]
fn update_geometry() {
    let mut reg = WindowRegistry::new();
    reg.add(make_window(1, "Terminal", "bash"));
    reg.update_geometry(
        1,
        thousandths(100.0),
        thousandths(200.0),
        thousandths(1000.0),
        thousandths(700.0),
    );
    let w = reg.get(1).unwrap();
    assert_eq!(w.x, thousandths(100.0));
    assert_eq!(w.y, thousandths(200.0));
    assert_eq!(w.width, thousandths(1000.0));
    assert_eq!(w.height, thousandths(700.0));
}

#[test]
fn update_title() {
    let mut reg = WindowRegistry::new();
    reg.add(make_window(1, "Terminal", "bash"));
    reg.update_title(1, "zsh".to_string());
    assert_eq!(reg.get(1).unwrap().title, "zsh");
}

#[test]
fn adding_a_known_window_replaces_it() {
    let mut reg = WindowRegistry::new();
    reg.add(make_window(1, "Terminal", "bash"));
    reg.add(make_window(2, "Safari", "web"));
    reg.add(make_window(1, "Terminal", "vim"));
    assert_eq!(reg.count(), 2);
    assert_eq!(reg.get(1).unwrap().title, "vim");
}

#[test]
fn unknown_windows_are_left_alone() {
    let mut reg = WindowRegistry::new();
    reg.add(make_window(1, "Terminal", "bash"));
    reg.update_title(7, "zsh".to_string());
    reg.set_minimized(7, true);
    assert!(reg.remove(7).is_none());
    assert!(reg.get(7).is_none());
    assert!(!reg.has_app(999));
    assert!(reg.has_app(100));
    assert_eq!(reg.all().len(), 1);
    reg.set_minimized(1, true);
    assert!(reg.get(1).unwrap().minimized);
}
