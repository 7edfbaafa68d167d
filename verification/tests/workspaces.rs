//! Workspaces: their names, their windows and the order of focus.
use tarmac::wm::geometry::Rect;
use tarmac::wm::workspace::{Workspace, WorkspaceId, WorkspaceManager, WorkspaceTarget};

fn screen() -> Rect {
    Rect::new(0, 0, 1920 * 1000, 1080 * 1000)
}

#[test]
fn creates_10_workspaces() {
    let mgr = WorkspaceManager::new();
    assert_eq!(mgr.count(), 10);
    assert_eq!(mgr.get(0).id, WorkspaceId::Numbered(1));
    assert_eq!(mgr.get(9).id, WorkspaceId::Numbered(10));
}

#[test]
fn get_or_create_grows() {
    let mut mgr = WorkspaceManager::new();
    let ws = mgr.get_or_create(15);
    assert_eq!(ws.id, WorkspaceId::Numbered(16));
    assert_eq!(mgr.count(), 16);
}

#[test]
fn find_window() {
    let mut mgr = WorkspaceManager::new();
    mgr.get_mut(0).tree.insert(1, None);
    mgr.get_mut(2).tree.insert(2, None);
    assert_eq!(mgr.find_window(1), Some(0));
    assert_eq!(mgr.find_window(2), Some(2));
    assert_eq!(mgr.find_window(99), None);
}

#[test]
fn focus_history() {
    let mut ws = Workspace::new(WorkspaceId::Numbered(1));
    ws.record_focus(1);
    ws.record_focus(2);
    ws.record_focus(3);
    assert_eq!(ws.focused, Some(3));

    ws.pop_focus();
    assert_eq!(ws.focused, Some(2));

    ws.pop_focus();
    assert_eq!(ws.focused, Some(1));
}

#[test]
fn toggle_float_tiled_to_floating() {
    let mut ws = Workspace::new(WorkspaceId::Numbered(1));
    ws.tree.insert_with_rect(1, None, screen());
    ws.tree.insert_with_rect(2, Some(1), screen());
    ws.focused = Some(2);

    assert!(ws.toggle_float(2, screen()));
    assert!(!ws.tree.contains(2));
    assert!(ws.is_floating(2));
}

#[test]
fn toggle_float_floating_to_tiled() {
    let mut ws = Workspace::new(WorkspaceId::Numbered(1));
    ws.tree.insert_with_rect(1, None, screen());
    ws.tree.insert_with_rect(2, Some(1), screen());
    ws.toggle_float(2, screen());
    ws.toggle_float(2, screen());
    assert!(!ws.is_floating(2));
    assert!(ws.tree.contains(2));
}

#[test]
fn all_window_ids_includes_floating() {
    let mut ws = Workspace::new(WorkspaceId::Numbered(1));
    ws.tree.insert_with_rect(1, None, screen());
    ws.tree.insert_with_rect(2, Some(1), screen());
    ws.toggle_float(2, screen());
    let mut ids = ws.all_window_ids();
    ids.sort();
    assert_eq!(ids, vec![1, 2]);
}

#[test]
fn workspace_id_display() {
    assert_eq!(WorkspaceId::Numbered(3).to_string(), "3");
    assert_eq!(WorkspaceId::Lettered('W').to_string(), "W");
    assert_eq!(
        WorkspaceId::Special("scratch".to_string()).to_string(),
        "special:scratch"
    );
}

#[test]
fn parses_workspace_targets() {
    assert_eq!(
        WorkspaceTarget::parse("7"),
        Some(WorkspaceTarget::Numbered(7))
    );
    assert_eq!(
        WorkspaceTarget::parse("w"),
        Some(WorkspaceTarget::Lettered('W'))
    );
    assert_eq!(
        WorkspaceId::parse("special:term"),
        Some(WorkspaceId::Special("term".to_string()))
    );
}

#[test]
fn creates_lettered_workspace_by_id() {
    let mut mgr = WorkspaceManager::new();
    let idx = mgr.get_or_create_by_id(WorkspaceId::Lettered('W'));
    assert_eq!(mgr.get(idx).id, WorkspaceId::Lettered('W'));
}

#[test]
fn visible_and_last_monitor() {
    let mut ws = Workspace::new(WorkspaceId::Numbered(1));
    assert!(!ws.visible);
    assert!(ws.last_monitor.is_none());

    ws.visible = true;
    ws.last_monitor = Some(0);
    assert!(ws.visible);
    assert_eq!(ws.last_monitor, Some(0));
}

#[test]
fn names_that_are_no_workspace() {
    assert_eq!(WorkspaceTarget::parse(""), None);
    assert_eq!(WorkspaceTarget::parse("ab"), None);
    assert_eq!(WorkspaceTarget::parse("300"), None);
    assert_eq!(WorkspaceId::parse("special:"), None);
    assert_eq!(WorkspaceId::parse("w"), Some(WorkspaceId::Lettered('W')));
}

#[test]
fn an_id_is_found_again() {
    let mut mgr = WorkspaceManager::new();
    let first = mgr.get_or_create_by_id(WorkspaceId::Lettered('W'));
    let again = mgr.get_or_create_by_id(WorkspaceId::Lettered('W'));
    assert_eq!(first, again);
    assert_eq!(mgr.count(), 11);
    assert_eq!(mgr.special_index("term"), 11);
    assert_eq!(mgr.special_index("term"), 11);
    assert_eq!(
        mgr.find_by_id(&WorkspaceId::Special("term".to_string())),
        Some(11)
    );
    assert_eq!(mgr.get_or_create_target(&WorkspaceTarget::Numbered(4)), 3);
}

#[test]
fn a_floated_window_gets_half_of_the_screen_in_the_middle() {
    let mut ws = Workspace::new(WorkspaceId::Numbered(1));
    ws.tree.insert_with_rect(1, None, screen());
    assert!(ws.toggle_float(1, screen()));
    assert_eq!(ws.floating.len(), 1);
    assert_eq!(
        ws.floating[0].geometry.center(),
        (960 * 1000, 540 * 1000)
    );
    assert!(!ws.toggle_float(9, screen()));
}

#[test]
fn a_closed_window_hands_the_focus_back() {
    let mut ws = Workspace::new(WorkspaceId::Numbered(1));
    ws.place_window(1, None, screen());
    ws.place_window(2, None, screen());
    ws.place_window(3, Some(Rect::new(0, 0, 100, 100)), screen());
    assert_eq!(ws.focused, Some(3));
    assert!(ws.holds(3));
    ws.close_window(3);
    assert!(!ws.holds(3));
    assert_eq!(ws.all_window_ids(), vec![1, 2]);
    assert_eq!(ws.focused, Some(2));
}

#[test]
fn a_taken_window_is_gone() {
    let mut ws = Workspace::new(WorkspaceId::Numbered(1));
    ws.place_window(1, None, screen());
    ws.place_window(2, None, screen());
    ws.take_window(1);
    assert_eq!(ws.all_window_ids(), vec![2]);
}
