//! Displays side by side.
use tarmac::wm::geometry::Rect;
use tarmac::wm::monitor::{Monitor, MonitorManager};

fn thousandths(v: f64) -> i64 {
    (v * 1000.0).round() as i64
}

fn rect(x: f64, y: f64, width: f64, height: f64) -> Rect {
    Rect::new(thousandths(x), thousandths(y), thousandths(width), thousandths(height))
}

fn make_monitors() -> Vec<Monitor> {
    vec![
        Monitor {
            id: 1,
            frame: rect(0.0, 0.0, 1920.0, 1080.0),
            usable_frame: rect(0.0, 25.0, 1920.0, 1055.0),
            is_primary: true,
            active_workspace: 0,
        },
        Monitor {
            id: 2,
            frame: rect(1920.0, 0.0, 2560.0, 1440.0),
            usable_frame: rect(1920.0, 25.0, 2560.0, 1415.0),
            is_primary: false,
            active_workspace: 1,
        },
    ]
}

#[test]
fn primary_is_focused_by_default() {
    let mut mgr = MonitorManager::new();
    mgr.set_monitors(make_monitors());
    assert_eq!(mgr.focused, 1);
}

#[test]
fn next_prev_cycle() {
    let mut mgr = MonitorManager::new();
    mgr.set_monitors(make_monitors());
    assert_eq!(mgr.next_monitor(1), Some(2));
    assert_eq!(mgr.next_monitor(2), Some(1)); // wraps
    assert_eq!(mgr.prev_monitor(1), Some(2)); // wraps
    assert_eq!(mgr.prev_monitor(2), Some(1));
}

#[test]
fn monitor_at_point() {
    let mut mgr = MonitorManager::new();
    mgr.set_monitors(make_monitors());
    assert_eq!(mgr.monitor_at_point(thousandths(500.0), thousandths(500.0)), Some(1));
    assert_eq!(mgr.monitor_at_point(thousandths(2500.0), thousandths(500.0)), Some(2));
    assert_eq!(mgr.monitor_at_point(thousandths(-100.0), thousandths(500.0)), None);
}

#[test]
fn single_monitor() {
    let mut mgr = MonitorManager::new();
    mgr.set_monitors(vec![Monitor {
        id: 42,
        frame: rect(0.0, 0.0, 2048.0, 1326.0),
        usable_frame: rect(0.0, 40.0, 2048.0, 1286.0),
        is_primary: true,
        active_workspace: 0,
    }]);
    assert_eq!(mgr.count(), 1);
    assert_eq!(mgr.focused, 42);
    assert_eq!(mgr.next_monitor(42), Some(42)); // wraps to self
}

#[test]
fn monitors_are_listed_from_left_to_right() {
    let mut mgr = MonitorManager::new();
    let mut monitors = make_monitors();
    monitors.swap(0, 1);
    mgr.set_monitors(monitors);
    assert_eq!(mgr.all()[0].id, 2);
    let sorted: Vec<u32> = mgr.sorted_by_position().iter().map(|m| m.id).collect();
    assert_eq!(sorted, vec![1, 2]);
    assert_eq!(mgr.focused_monitor().map(|m| m.id), Some(1));
    assert!(mgr.get(7).is_none());
}
