//! The window manager as a whole.
use tarmac::config::rules::{RuleMatchMode, RulePattern, WindowRule};
use tarmac::wm::effects::{hide_target_for_frame, Effect};
use tarmac::wm::geometry::{Direction, Rect};
use tarmac::wm::monitor::Monitor;
use tarmac::wm::oversize::WindowSize;
use tarmac::wm::state::{NewWindow, WmState};
use tarmac::wm::window::WindowState;
use tarmac::wm::window_event::{
    is_manageable_window, should_auto_float, WindowEvent, WindowEventKind,
};
use tarmac::wm::workspace::WorkspaceTarget;

fn thousandths(v: f64) -> i64 {
    (v * 1000.0).round() as i64
}

fn rect(x: f64, y: f64, width: f64, height: f64) -> Rect {
    Rect::new(thousandths(x), thousandths(y), thousandths(width), thousandths(height))
}

/// Does everything that waits, on a screen where nothing can be measured.
fn settle(state: &mut WmState) -> Vec<Effect> {
    let mut done = state.take_effects();
    while state.has_tasks() {
        state.resume(&Vec::new());
        done.extend(state.take_effects());
    }
    done
}

fn tracked_window(id: u32, pid: i32, name: &str) -> WindowState {
    WindowState {
        id,
        app_pid: pid,
        app_name: name.to_string(),
        app_bundle_id: format!("com.test.{name}"),
        title: format!("{name} {id}"),
        role: "AXWindow".to_string(),
        subrole: "AXStandardWindow".to_string(),
        x: thousandths(0.0),
        y: thousandths(0.0),
        width: thousandths(100.0),
        height: thousandths(100.0),
        floating: false,
        minimized: false,
    }
}

#[test]
fn hide_anchor_frame_defaults_without_monitors() {
    let state = WmState::new();
    let (hide_frame, monitor_idx) = state.hide_anchor_frame(42);
    assert_eq!((hide_frame.x, hide_frame.y), (thousandths(-32_000.0), thousandths(-32_000.0)));
    assert_eq!(monitor_idx, None);
}

#[test]
fn hide_anchor_frame_prefers_visible_workspace_monitor() {
    let mut state = WmState::new();
    state.monitors = vec![
        Monitor {
            id: 10,
            frame: rect(-1920.0, 0.0, 1920.0, 1080.0),
            usable_frame: rect(-1920.0, 33.0, 1920.0, 1047.0),
            is_primary: false,
            active_workspace: 1,
        },
        Monitor {
            id: 20,
            frame: rect(0.0, 0.0, 1728.0, 1117.0),
            usable_frame: rect(0.0, 33.0, 1728.0, 1084.0),
            is_primary: true,
            active_workspace: 0,
        },
    ];
    state.workspaces.get_mut(1).visible = true;
    state.workspaces.get_mut(1).last_monitor = Some(0);
    state.monitors[0].active_workspace = 1;
    state.registry.add(WindowState {
        id: 99,
        app_pid: 1,
        app_name: "Test".to_string(),
        app_bundle_id: "test.bundle".to_string(),
        title: String::new(),
        role: "AXWindow".to_string(),
        subrole: "AXStandardWindow".to_string(),
        x: thousandths(0.0),
        y: thousandths(0.0),
        width: thousandths(100.0),
        height: thousandths(100.0),
        floating: false,
        minimized: false,
    });
    state
        .workspaces
        .get_mut(1)
        .tree
        .insert_with_rect(99, None, state.monitors[0].usable_frame);

    let (hide_frame, monitor_idx) = state.hide_anchor_frame(99);
    assert_eq!(monitor_idx, Some(0));
    assert_eq!(hide_frame, state.monitors[0].frame);
}

#[test]
fn hide_anchor_frame_uses_last_display_id_for_hidden_workspace() {
    let mut state = WmState::new();
    state.monitors = vec![
        Monitor {
            id: 10,
            frame: rect(-1920.0, 0.0, 1920.0, 1080.0),
            usable_frame: rect(-1920.0, 33.0, 1920.0, 1047.0),
            is_primary: false,
            active_workspace: 1,
        },
        Monitor {
            id: 20,
            frame: rect(0.0, 0.0, 1728.0, 1117.0),
            usable_frame: rect(0.0, 33.0, 1728.0, 1084.0),
            is_primary: true,
            active_workspace: 0,
        },
    ];
    state.focused_monitor = 0;
    state.workspaces.get_mut(2).last_display_id = Some(20);
    state.registry.add(WindowState {
        id: 77,
        app_pid: 1,
        app_name: "Test".to_string(),
        app_bundle_id: "test.bundle".to_string(),
        title: String::new(),
        role: "AXWindow".to_string(),
        subrole: "AXStandardWindow".to_string(),
        x: thousandths(0.0),
        y: thousandths(0.0),
        width: thousandths(100.0),
        height: thousandths(100.0),
        floating: false,
        minimized: false,
    });
    state
        .workspaces
        .get_mut(2)
        .tree
        .insert_with_rect(77, None, state.monitors[1].usable_frame);

    let (hide_frame, monitor_idx) = state.hide_anchor_frame(77);
    assert_eq!(monitor_idx, Some(1));
    assert_eq!(hide_frame, state.monitors[1].frame);
}

#[test]
fn hide_target_for_frame_keeps_right_edge_one_point_inside_monitor() {
    let monitors = vec![
        Monitor {
            id: 10,
            frame: rect(-1920.0, 0.0, 1920.0, 1080.0),
            usable_frame: rect(-1920.0, 33.0, 1920.0, 1047.0),
            is_primary: false,
            active_workspace: 1,
        },
        Monitor {
            id: 20,
            frame: rect(0.0, 0.0, 1710.0, 1107.0),
            usable_frame: rect(0.0, 33.0, 1710.0, 1074.0),
            is_primary: true,
            active_workspace: 0,
        },
    ];
    let frame = monitors[0].frame;
    let (hide_x, hide_y) = hide_target_for_frame(frame, thousandths(980.0), Some(0), &monitors);
    assert_eq!(hide_x, thousandths(-2899.0));
    assert_eq!(hide_y, thousandths(6080.0));
}

#[test]
fn hide_target_for_frame_uses_monitor_origin_for_positive_x_displays() {
    let monitors = vec![
        Monitor {
            id: 10,
            frame: rect(-1920.0, 0.0, 1920.0, 1080.0),
            usable_frame: rect(-1920.0, 33.0, 1920.0, 1047.0),
            is_primary: false,
            active_workspace: 1,
        },
        Monitor {
            id: 20,
            frame: rect(0.0, 0.0, 1710.0, 1107.0),
            usable_frame: rect(0.0, 33.0, 1710.0, 1074.0),
            is_primary: true,
            active_workspace: 0,
        },
    ];
    let frame = monitors[1].frame;
    let (hide_x, hide_y) = hide_target_for_frame(frame, thousandths(980.0), Some(1), &monitors);
    assert_eq!(hide_x, thousandths(1709.0));
    assert_eq!(hide_y, thousandths(6107.0));
}

#[test]
fn hide_target_for_frame_falls_back_without_monitor_affinity() {
    let frame = rect(0.0, 0.0, 1710.0, 1107.0);
    let (hide_x, hide_y) = hide_target_for_frame(frame, thousandths(980.0), None, &vec![]);
    assert_eq!(hide_x, thousandths(-979.0));
    assert_eq!(hide_y, thousandths(6107.0));
}

#[test]
fn special_workspace_counts_as_effectively_visible() {
    let mut state = WmState::new();
    state.monitors = vec![Monitor {
        id: 42,
        frame: rect(0.0, 0.0, 1710.0, 1107.0),
        usable_frame: rect(0.0, 33.0, 1710.0, 1074.0),
        is_primary: true,
        active_workspace: 0,
    }];
    let special_idx = state.workspaces.special_index("scratch");
    state.active_specials = vec![Some(special_idx)];
    state.sync_workspace_visibility();

    assert!(state.workspace_is_effectively_visible(special_idx));
    assert!(state.workspaces.get(special_idx).visible);
}

#[test]
fn is_window_hidden_uses_effective_visibility_not_cached_flag() {
    let mut state = WmState::new();
    state.monitors = vec![Monitor {
        id: 42,
        frame: rect(0.0, 0.0, 1710.0, 1107.0),
        usable_frame: rect(0.0, 33.0, 1710.0, 1074.0),
        is_primary: true,
        active_workspace: 0,
    }];
    state.registry.add(WindowState {
        id: 123,
        app_pid: 1,
        app_name: "Test".to_string(),
        app_bundle_id: "test.bundle".to_string(),
        title: String::new(),
        role: "AXWindow".to_string(),
        subrole: "AXStandardWindow".to_string(),
        x: thousandths(0.0),
        y: thousandths(0.0),
        width: thousandths(100.0),
        height: thousandths(100.0),
        floating: false,
        minimized: false,
    });
    state.workspaces.get_mut(1).tree.insert_with_rect(
        123,
        None,
        state.monitors[0].usable_frame,
    );
    state.workspaces.get_mut(1).visible = true; // Stale cached state.

    assert!(state.is_window_hidden(123));

    state.monitors[0].active_workspace = 1;
    state.sync_workspace_visibility();
    assert!(!state.is_window_hidden(123));
}

#[test]
fn focus_direction_cycles_stacked_windows_left_right() {
    let mut state = WmState::new();
    state.monitors = vec![Monitor {
        id: 42,
        frame: rect(0.0, 0.0, 1920.0, 1080.0),
        usable_frame: rect(0.0, 33.0, 1920.0, 1047.0),
        is_primary: true,
        active_workspace: 0,
    }];
    state.sync_workspace_visibility();
    let screen = state.monitors[0].usable_frame;

    {
        let ws = state.workspaces.get_mut(0);
        ws.tree.insert_with_rect(1, None, screen);
        ws.tree.insert_with_rect(2, Some(1), screen);
        ws.tree.insert_with_rect(3, Some(2), screen);
        assert!(ws.tree.make_stack_for_window(3));
        ws.tree.set_stack_active(3);
        ws.record_focus(3);
    }

    state.focus_direction(Direction::Left);

    settle(&mut state);
    assert_eq!(state.active_workspace().focused, Some(2));

    state.focus_direction(Direction::Left);

    settle(&mut state);
    assert_eq!(state.active_workspace().focused, Some(1));

    state.focus_direction(Direction::Right);

    settle(&mut state);
    assert_eq!(state.active_workspace().focused, Some(2));

    state.focus_direction(Direction::Right);

    settle(&mut state);
    assert_eq!(state.active_workspace().focused, Some(3));
}

#[test]
fn focus_direction_returns_to_last_ambiguous_tile() {
    let mut state = WmState::new();
    state.monitors = vec![Monitor {
        id: 42,
        frame: rect(0.0, 0.0, 1920.0, 1080.0),
        usable_frame: rect(0.0, 33.0, 1920.0, 1047.0),
        is_primary: true,
        active_workspace: 0,
    }];
    state.sync_workspace_visibility();
    let screen = state.monitors[0].usable_frame;

    {
        let ws = state.workspaces.get_mut(0);
        ws.tree.insert_with_rect(1, None, screen);
        ws.tree.insert_with_rect(2, Some(1), screen);
        ws.tree.insert_with_rect(3, Some(2), screen);
        ws.record_focus(3);
    }

    state.focus_direction(Direction::Left);

    settle(&mut state);
    assert_eq!(state.active_workspace().focused, Some(1));

    state.focus_direction(Direction::Right);

    settle(&mut state);
    assert_eq!(state.active_workspace().focused, Some(3));

    state.focus_direction(Direction::Up);

    settle(&mut state);
    assert_eq!(state.active_workspace().focused, Some(2));

    state.focus_direction(Direction::Left);

    settle(&mut state);
    assert_eq!(state.active_workspace().focused, Some(1));

    state.focus_direction(Direction::Right);

    settle(&mut state);
    assert_eq!(state.active_workspace().focused, Some(2));
}

#[test]
fn mouse_hover_on_inactive_stack_sliver_does_not_change_focus() {
    let mut state = WmState::new();
    state.monitors = vec![Monitor {
        id: 42,
        frame: rect(0.0, 0.0, 1920.0, 1080.0),
        usable_frame: rect(0.0, 33.0, 1920.0, 1047.0),
        is_primary: true,
        active_workspace: 0,
    }];
    state.sync_workspace_visibility();
    let screen = state.monitors[0].usable_frame;

    {
        let ws = state.workspaces.get_mut(0);
        ws.tree.insert_with_rect(70, None, screen);
        ws.tree.insert_with_rect(71, Some(70), screen);
        assert!(ws.tree.make_stack_for_window(71));
        ws.tree.set_stack_active(70);
        ws.record_focus(70);
    }

    let geoms = state.workspace_render_geometries(0, screen);
    let inactive = geoms.iter().find(|(wid, _)| *wid == 71).unwrap().1;
    let hover_x = inactive.x + inactive.width - thousandths(1.0);
    let hover_y = inactive.y + thousandths(1.0);

    state.mouse_moved(hover_x, hover_y);

    settle(&mut state);

    assert_eq!(state.active_workspace().focused, Some(70));
    assert_eq!(
        state.active_workspace().tree.stack_info(70),
        Some((vec![70, 71], 0))
    );
}

#[test]
fn external_focus_reveals_hidden_workspace_and_tracks_target_window() {
    let mut state = WmState::new();
    state.monitors = vec![Monitor {
        id: 42,
        frame: rect(0.0, 0.0, 1920.0, 1080.0),
        usable_frame: rect(0.0, 33.0, 1920.0, 1047.0),
        is_primary: true,
        active_workspace: 0,
    }];
    state.sync_workspace_visibility();
    let screen = state.monitors[0].usable_frame;

    state
        .workspaces
        .get_or_create_target(&WorkspaceTarget::Numbered(2));

    {
        let ws = state.workspaces.get_mut(1);
        ws.tree.insert_with_rect(10, None, screen);
        ws.tree.insert_with_rect(11, Some(10), screen);
        assert!(ws.tree.make_stack_for_window(11));
        ws.tree.set_stack_active(10);
        ws.record_focus(10);
    }

    state.adopt_external_focus(11);

    settle(&mut state);

    assert_eq!(state.monitors[0].active_workspace, 1);
    assert_eq!(state.focused_monitor, 0);
    assert_eq!(state.active_workspace().focused, Some(11));
    assert_eq!(
        state.active_workspace().tree.stack_info(11),
        Some((vec![10, 11], 1))
    );
}

#[test]
fn external_focus_jumps_to_monitor_showing_window_workspace() {
    let mut state = WmState::new();
    state.monitors = vec![
        Monitor {
            id: 42,
            frame: rect(0.0, 0.0, 1920.0, 1080.0),
            usable_frame: rect(0.0, 33.0, 1920.0, 1047.0),
            is_primary: true,
            active_workspace: 0,
        },
        Monitor {
            id: 43,
            frame: rect(1920.0, 0.0, 1920.0, 1080.0),
            usable_frame: rect(1920.0, 0.0, 1920.0, 1080.0),
            is_primary: false,
            active_workspace: 1,
        },
    ];
    state
        .workspaces
        .get_or_create_target(&WorkspaceTarget::Numbered(2));
    state.sync_workspace_visibility();
    let screen = state.monitors[1].usable_frame;

    {
        let ws = state.workspaces.get_mut(1);
        ws.tree.insert_with_rect(21, None, screen);
        ws.tree.insert_with_rect(22, Some(21), screen);
        assert!(ws.tree.make_stack_for_window(22));
        ws.tree.set_stack_active(21);
        ws.record_focus(21);
    }

    state.focused_monitor = 0;
    state.adopt_external_focus(22);
    settle(&mut state);

    assert_eq!(state.focused_monitor, 1);
    assert_eq!(state.monitors[1].active_workspace, 1);
    assert_eq!(state.workspaces.get(1).focused, Some(22));
    assert_eq!(
        state.workspaces.get(1).tree.stack_info(22),
        Some((vec![21, 22], 1))
    );
}

#[test]
fn external_app_focus_falls_back_to_last_focused_window() {
    let mut state = WmState::new();
    state.monitors = vec![Monitor {
        id: 42,
        frame: rect(0.0, 0.0, 1920.0, 1080.0),
        usable_frame: rect(0.0, 33.0, 1920.0, 1047.0),
        is_primary: true,
        active_workspace: 0,
    }];
    state.sync_workspace_visibility();
    let screen = state.monitors[0].usable_frame;

    state.registry.add(tracked_window(30, 7, "Messages"));
    state.registry.add(tracked_window(31, 7, "Messages"));
    state
        .workspaces
        .get_or_create_target(&WorkspaceTarget::Numbered(2));

    {
        let ws = state.workspaces.get_mut(1);
        ws.tree.insert_with_rect(30, None, screen);
        ws.tree.insert_with_rect(31, Some(30), screen);
        assert!(ws.tree.make_stack_for_window(31));
        ws.tree.set_stack_active(30);
        ws.record_focus(30);
        ws.record_focus(31);
    }

    state.adopt_external_app_focus(7, None);

    settle(&mut state);

    assert_eq!(state.monitors[0].active_workspace, 1);
    assert_eq!(state.active_workspace().focused, Some(31));
    assert_eq!(
        state.active_workspace().tree.stack_info(31),
        Some((vec![30, 31], 1))
    );
}

#[test]
fn external_focus_arms_mouse_follow_for_promoted_stack_window() {
    let mut state = WmState::new();
    state.monitors = vec![Monitor {
        id: 42,
        frame: rect(0.0, 0.0, 1920.0, 1080.0),
        usable_frame: rect(0.0, 33.0, 1920.0, 1047.0),
        is_primary: true,
        active_workspace: 0,
    }];
    state.sync_workspace_visibility();
    let screen = state.monitors[0].usable_frame;

    state.registry.add(tracked_window(50, 11, "Firefox"));
    state.registry.add(tracked_window(51, 11, "Messages"));
    state
        .workspaces
        .get_or_create_target(&WorkspaceTarget::Numbered(2));

    {
        let ws = state.workspaces.get_mut(1);
        ws.tree.insert_with_rect(50, None, screen);
        ws.tree.insert_with_rect(51, Some(50), screen);
        assert!(ws.tree.make_stack_for_window(51));
        ws.tree.set_stack_active(50);
        ws.record_focus(50);
    }

    state.adopt_external_app_focus(11, Some(51));

    settle(&mut state);

    assert_eq!(state.active_workspace().focused, Some(51));
    assert_eq!(state.ffm_last_window, Some(51));
    assert!(state.ffm_cooldown_until.is_some());
    assert_eq!(
        state.active_workspace().tree.stack_info(51),
        Some((vec![50, 51], 1))
    );
}

#[test]
fn workspace_switch_silences_external_app_focus_callback() {
    // Regression: a frontmost-app poll that arrives mid workspace switch
    // (with a stale pid that doesn't match the ring) used to switch us
    // back across workspaces, kicking off the rapid-cycling loop.
    let mut state = WmState::new();
    state.monitors = vec![Monitor {
        id: 42,
        frame: rect(0.0, 0.0, 1920.0, 1080.0),
        usable_frame: rect(0.0, 33.0, 1920.0, 1047.0),
        is_primary: true,
        active_workspace: 0,
    }];
    let screen = state.monitors[0].usable_frame;

    state.registry.add(tracked_window(90, 21, "AppA"));
    state.registry.add(tracked_window(91, 22, "AppB"));
    state
        .workspaces
        .get_or_create_target(&WorkspaceTarget::Numbered(2));
    {
        let ws = state.workspaces.get_mut(0);
        ws.tree.insert_with_rect(90, None, screen);
        ws.record_focus(90);
    }
    {
        let ws = state.workspaces.get_mut(1);
        ws.tree.insert_with_rect(91, None, screen);
        ws.record_focus(91);
    }
    state.sync_workspace_visibility();

    state.switch_workspace(&WorkspaceTarget::Numbered(2));

    settle(&mut state);
    assert_eq!(state.monitors[0].active_workspace, 1);

    // Lagging poll for the previous workspace's frontmost app - must not
    // yank us back to ws1 while the silence latch is armed.
    state.adopt_external_app_focus(21, None);
    settle(&mut state);
    assert_eq!(state.monitors[0].active_workspace, 1);
}

#[test]
fn recent_internal_focus_ignores_lagging_poll_for_prior_activation() {
    // Regression: the single-slot guard let the *previous* activation's
    // pid leak through once a newer activation overwrote the slot. With
    // a ring, a frontmost-app poll arriving for the older pid should
    // still be recognized as self-initiated.
    let mut state = WmState::new();
    state.monitors = vec![Monitor {
        id: 42,
        frame: rect(0.0, 0.0, 1920.0, 1080.0),
        usable_frame: rect(0.0, 33.0, 1920.0, 1047.0),
        is_primary: true,
        active_workspace: 0,
    }];
    state.sync_workspace_visibility();
    let screen = state.monitors[0].usable_frame;

    state.registry.add(tracked_window(80, 14, "AppA"));
    state.registry.add(tracked_window(81, 15, "AppB"));
    {
        let ws = state.workspaces.get_mut(0);
        ws.tree.insert_with_rect(80, None, screen);
        ws.tree.insert_with_rect(81, Some(80), screen);
        ws.record_focus(80);
    }

    // Two intentional activations in quick succession - single-slot would
    // forget the first one.
    state.focus_window(80);
    settle(&mut state);
    state.focus_window(81);
    settle(&mut state);

    // A lagging poll arrives for the older activation's pid.
    assert!(state.should_ignore_external_focus(14, None));
    // And for the newer one.
    assert!(state.should_ignore_external_focus(15, None));
    // Unrelated pid still passes through.
    assert!(!state.should_ignore_external_focus(99, None));
}

#[test]
fn internal_focus_echo_does_not_trigger_external_mouse_warp() {
    let mut state = WmState::new();
    state.monitors = vec![Monitor {
        id: 42,
        frame: rect(0.0, 0.0, 1920.0, 1080.0),
        usable_frame: rect(0.0, 33.0, 1920.0, 1047.0),
        is_primary: true,
        active_workspace: 0,
    }];
    state.sync_workspace_visibility();
    let screen = state.monitors[0].usable_frame;

    state.registry.add(tracked_window(60, 12, "Firefox"));
    state.registry.add(tracked_window(61, 12, "Firefox"));
    {
        let ws = state.workspaces.get_mut(0);
        ws.tree.insert_with_rect(60, None, screen);
        ws.tree.insert_with_rect(61, Some(60), screen);
        ws.record_focus(60);
    }

    state.focus_window(61);

    settle(&mut state);
    assert_eq!(state.active_workspace().focused, Some(61));
    assert!(state.ffm_cooldown_until.is_none());

    state.adopt_external_app_focus(12, Some(61));

    settle(&mut state);

    assert_eq!(state.active_workspace().focused, Some(61));
    assert!(state.ffm_cooldown_until.is_none());
}

#[test]
fn external_app_focus_prefers_visible_workspace_over_workspace_one() {
    // Regression: a stale focus_history entry for `pid` on workspace 1
    // (index 0) used to win over a candidate on the currently visible
    // workspace, yanking the WM back to ws1 in a feedback loop with the
    // 50ms frontmost-app poll.
    let mut state = WmState::new();
    state.monitors = vec![Monitor {
        id: 42,
        frame: rect(0.0, 0.0, 1920.0, 1080.0),
        usable_frame: rect(0.0, 33.0, 1920.0, 1047.0),
        is_primary: true,
        active_workspace: 0,
    }];
    let screen = state.monitors[0].usable_frame;

    state.registry.add(tracked_window(70, 13, "WezTerm"));
    state.registry.add(tracked_window(71, 13, "WezTerm"));
    state
        .workspaces
        .get_or_create_target(&WorkspaceTarget::Numbered(2));

    // Stale history on ws1 for pid 13.
    {
        let ws = state.workspaces.get_mut(0);
        ws.tree.insert_with_rect(70, None, screen);
        ws.record_focus(70);
    }
    // Currently visible ws2 also has a window for pid 13.
    {
        let ws = state.workspaces.get_mut(1);
        ws.tree.insert_with_rect(71, None, screen);
        ws.record_focus(71);
    }

    // Make ws2 the visible workspace.
    state.monitors[0].active_workspace = 1;
    state.sync_workspace_visibility();

    state.adopt_external_app_focus(13, None);

    settle(&mut state);

    // Resolver must prefer the ws2 window over the stale ws1 entry.
    assert_eq!(state.monitors[0].active_workspace, 1);
    assert_eq!(state.active_workspace().focused, Some(71));
}

#[test]
fn external_app_focus_dismisses_overlay_before_switching() {
    let mut state = WmState::new();
    state.monitors = vec![Monitor {
        id: 42,
        frame: rect(0.0, 0.0, 1920.0, 1080.0),
        usable_frame: rect(0.0, 33.0, 1920.0, 1047.0),
        is_primary: true,
        active_workspace: 0,
    }];
    state.sync_workspace_visibility();
    let screen = state.monitors[0].usable_frame;

    let special_idx = state.workspaces.special_index("messages");
    state.active_specials = vec![Some(special_idx)];
    state.sync_workspace_visibility();

    state.registry.add(tracked_window(40, 9, "Messages"));
    state
        .workspaces
        .get_or_create_target(&WorkspaceTarget::Numbered(2));
    {
        let ws = state.workspaces.get_mut(1);
        ws.tree.insert_with_rect(40, None, screen);
        ws.record_focus(40);
    }

    state.adopt_external_app_focus(9, None);

    settle(&mut state);

    assert_eq!(state.active_specials, vec![None]);
    assert_eq!(state.monitors[0].active_workspace, 1);
    assert_eq!(state.active_workspace().focused, Some(40));
}

#[test]
fn promote_stack_focused_moves_active_window_to_top() {
    let mut state = WmState::new();
    state.monitors = vec![Monitor {
        id: 42,
        frame: rect(0.0, 0.0, 1920.0, 1080.0),
        usable_frame: rect(0.0, 33.0, 1920.0, 1047.0),
        is_primary: true,
        active_workspace: 0,
    }];
    state.sync_workspace_visibility();
    let screen = state.monitors[0].usable_frame;

    {
        let ws = state.workspaces.get_mut(0);
        ws.tree.insert_with_rect(1, None, screen);
        ws.tree.insert_with_rect(2, Some(1), screen);
        ws.tree.insert_with_rect(3, Some(2), screen);
        assert!(ws.tree.make_stack_for_window(3));
        ws.tree.set_stack_active(3);
        ws.record_focus(3);
    }

    state.focus_direction(Direction::Left);

    settle(&mut state);
    assert_eq!(state.active_workspace().focused, Some(2));

    state.promote_stack_focused();

    settle(&mut state);

    assert_eq!(state.active_workspace().focused, Some(2));
    assert_eq!(
        state.active_workspace().tree.stack_info(2),
        Some((vec![2, 3], 0))
    );
}

#[test]
fn unstack_focused_restores_original_tree() {
    let mut state = WmState::new();
    state.monitors = vec![Monitor {
        id: 42,
        frame: rect(0.0, 0.0, 1920.0, 1080.0),
        usable_frame: rect(0.0, 33.0, 1920.0, 1047.0),
        is_primary: true,
        active_workspace: 0,
    }];
    state.sync_workspace_visibility();
    let screen = state.monitors[0].usable_frame;

    let original = {
        let ws = state.workspaces.get_mut(0);
        ws.tree.insert_with_rect(1, None, screen);
        ws.tree.insert_with_rect(2, Some(1), screen);
        ws.tree.insert_with_rect(3, Some(2), screen);
        let original = ws.tree.clone();
        assert!(ws.tree.make_stack_for_window(3));
        ws.tree.set_stack_active(3);
        ws.record_focus(3);
        original
    };

    state.unstack_focused();

    settle(&mut state);
    assert_eq!(state.active_workspace().tree, original);
}

fn two_monitors() -> WmState {
    let mut state = WmState::new();
    let displays = vec![
        Monitor {
            id: 43,
            frame: rect(1920.0, 0.0, 1920.0, 1080.0),
            usable_frame: rect(1920.0, 33.0, 1920.0, 1047.0),
            is_primary: false,
            active_workspace: 0,
        },
        Monitor {
            id: 42,
            frame: rect(0.0, 0.0, 1920.0, 1080.0),
            usable_frame: rect(0.0, 33.0, 1920.0, 1047.0),
            is_primary: true,
            active_workspace: 0,
        },
    ];
    state.discover_and_observe(&displays, thousandths(10.0), thousandths(10.0), Vec::new());
    settle(&mut state);
    state
}

fn new_window(id: u32, app: &str, subrole: &str) -> NewWindow {
    NewWindow {
        id,
        app_pid: 5,
        app_name: app.to_string(),
        app_bundle_id: format!("com.test.{app}"),
        title: format!("{app} {id}"),
        role: "AXWindow".to_string(),
        subrole: subrole.to_string(),
        x: thousandths(0.0),
        y: thousandths(0.0),
        width: thousandths(400.0),
        height: thousandths(300.0),
    }
}

#[test]
fn displays_are_sorted_and_get_a_workspace_each() {
    let state = two_monitors();
    assert_eq!(state.monitors[0].id, 42);
    assert_eq!(state.monitors[0].active_workspace, 0);
    assert_eq!(state.monitors[1].id, 43);
    assert_eq!(state.monitors[1].active_workspace, 1);
    assert_eq!(state.focused_monitor, 0);
    assert!(state.workspaces.get(0).visible);
    assert!(state.workspaces.get(1).visible);
    assert!(!state.workspaces.get(2).visible);
}

#[test]
fn a_new_window_is_tiled_and_takes_the_focus() {
    let mut state = two_monitors();
    state.on_windows_found(vec![new_window(1, "Terminal", "AXStandardWindow")], false);
    let done = settle(&mut state);
    assert!(state.registry.contains(1));
    assert_eq!(state.active_workspace().focused, Some(1));
    assert!(state.workspaces.get(0).tree.contains(1));
    assert!(done.iter().any(|e| matches!(e, Effect::Show { id: 1, .. })));
}

#[test]
fn rules_send_windows_elsewhere() {
    let mut state = two_monitors();
    let mut rule = WindowRule::new();
    rule.app_name = Some(RulePattern::new("Music", RuleMatchMode::Exact));
    rule.floating = Some(true);
    rule.workspace = Some("5".to_string());
    state.rules = vec![rule];
    state.add_window_to_active(&new_window(7, "Music", "AXStandardWindow"));
    settle(&mut state);
    assert_eq!(state.workspaces.find_window(7), Some(4));
    assert!(state.workspaces.get(4).is_floating(7));
}

#[test]
fn a_window_without_a_size_is_not_taken_in() {
    let mut state = two_monitors();
    let mut window = new_window(8, "Ghost", "AXStandardWindow");
    window.width = 0;
    state.add_window_to_active(&window);
    settle(&mut state);
    assert!(!state.registry.contains(8));
}

#[test]
fn a_closed_window_is_nowhere() {
    let mut state = two_monitors();
    for id in 1..=3 {
        state.add_window_to_active(&new_window(id, "Terminal", "AXStandardWindow"));
        settle(&mut state);
    }
    state.on_window_closed(3);
    settle(&mut state);
    assert!(!state.registry.contains(3));
    assert_eq!(state.workspaces.find_window(3), None);
    assert_eq!(state.active_workspace().focused, Some(2));
    state.on_app_terminated(5);
    settle(&mut state);
    assert_eq!(state.registry.count(), 0);
    assert!(state.active_workspace().is_empty());
}

#[test]
fn a_moved_window_is_in_one_place() {
    let mut state = two_monitors();
    state.add_window_to_active(&new_window(1, "Terminal", "AXStandardWindow"));
    settle(&mut state);
    state.add_window_to_active(&new_window(2, "Terminal", "AXStandardWindow"));
    settle(&mut state);
    state.move_to_workspace(&WorkspaceTarget::Numbered(6));
    settle(&mut state);
    assert_eq!(state.workspaces.find_window(2), Some(5));
    assert_eq!(state.workspaces.get(0).all_window_ids(), vec![1]);
    assert!(state.is_window_hidden(2));
    assert!(!state.is_window_hidden(1));
}

#[test]
fn switching_back_shows_the_windows_again() {
    let mut state = two_monitors();
    state.add_window_to_active(&new_window(1, "Terminal", "AXStandardWindow"));
    settle(&mut state);
    state.switch_workspace(&WorkspaceTarget::Numbered(3));
    let away = settle(&mut state);
    assert!(state.is_window_hidden(1));
    assert!(away.iter().any(|e| matches!(e, Effect::Hide { id: 1, .. } | Effect::Fade { id: 1 })));
    state.switch_workspace(&WorkspaceTarget::Numbered(1));
    let back = settle(&mut state);
    assert!(!state.is_window_hidden(1));
    assert!(back.iter().any(|e| matches!(e, Effect::Show { id: 1, .. })));
    assert_eq!(state.active_workspace().focused, Some(1));
}

#[test]
fn a_special_workspace_comes_and_goes() {
    let mut state = two_monitors();
    state.add_window_to_active(&new_window(1, "Terminal", "AXStandardWindow"));
    settle(&mut state);
    state.move_to_special("term");
    settle(&mut state);
    assert!(state.is_window_hidden(1));
    state.toggle_special("term");
    settle(&mut state);
    assert!(!state.is_window_hidden(1));
    assert_eq!(state.effective_focused(), Some(1));
    state.toggle_special("term");
    settle(&mut state);
    assert!(state.is_window_hidden(1));
}

#[test]
fn monitors_are_reached_and_left() {
    let mut state = two_monitors();
    state.focus_monitor_next();
    settle(&mut state);
    assert_eq!(state.focused_monitor, 1);
    state.focus_monitor_prev();
    settle(&mut state);
    assert_eq!(state.focused_monitor, 0);
    state.add_window_to_active(&new_window(1, "Terminal", "AXStandardWindow"));
    settle(&mut state);
    state.move_to_monitor_next();
    settle(&mut state);
    assert_eq!(state.workspaces.find_window(1), Some(1));
}

#[test]
fn a_lost_display_gives_its_workspace_up() {
    let mut state = two_monitors();
    let left = vec![state.monitors[0]];
    state.refresh_monitors(&left);
    settle(&mut state);
    assert_eq!(state.monitors.len(), 1);
    assert_eq!(state.monitors[0].active_workspace, 0);
    assert!(!state.workspaces.get(1).visible);
}

#[test]
fn windows_that_fit_no_tile_float() {
    let mut state = two_monitors();
    for id in 1..=3 {
        state.add_window_to_active(&new_window(id, "Terminal", "AXStandardWindow"));
        settle(&mut state);
    }
    state.fix_oversized_windows();
    state.take_effects();
    let mut rounds = 0;
    while state.has_tasks() {
        let sizes: Vec<WindowSize> = state
            .windows_to_measure()
            .iter()
            .map(|id| WindowSize { id: *id, width: thousandths(1500.0), height: thousandths(900.0) })
            .collect();
        state.resume(&sizes);
        state.take_effects();
        rounds += 1;
        assert!(rounds < 100, "the work does not end");
    }
    let ws = state.workspaces.get(0);
    assert_eq!(ws.floating.iter().map(|f| f.id).collect::<Vec<u32>>(), vec![1, 2]);
    assert_eq!(ws.floating[0].geometry.width, thousandths(1500.0));
    assert_eq!(ws.tree.windows(), vec![3]);
    let mut all = state.workspaces.get(0).all_window_ids();
    all.sort();
    assert_eq!(all, vec![1, 2, 3]);
}

#[test]
fn a_floating_window_is_dragged() {
    let mut state = two_monitors();
    state.add_window_to_active(&new_window(1, "Terminal", "AXDialog"));
    settle(&mut state);
    assert!(state.active_workspace().is_floating(1));
    let before = state.active_workspace().floating_rect(1).expect("no rectangle");
    let (x, y) = before.center();
    state.begin_move_drag(x, y);
    assert!(state.is_dragging());
    state.update_drag(x + thousandths(10.0), y + thousandths(-20.0));
    state.end_drag();
    assert!(!state.is_dragging());
    let after = state.active_workspace().floating_rect(1).expect("no rectangle");
    assert_eq!(after.x, before.x + thousandths(10.0));
    assert_eq!(after.y, before.y - thousandths(20.0));
}

#[test]
fn only_windows_of_known_kinds_are_managed() {
    let some = |s: &str| Some(s.to_string());
    assert!(is_manageable_window(&some("AXWindow"), &some("AXStandardWindow")));
    assert!(!is_manageable_window(&some("AXWindow"), &some("AXUnknown")));
    assert!(!is_manageable_window(&some("AXMenu"), &some("AXStandardWindow")));
    assert!(!is_manageable_window(&None, &None));
    assert!(should_auto_float("AXDialog"));
    assert!(!should_auto_float("AXStandardWindow"));
}

#[test]
fn events_of_a_window_change_what_is_known_of_it() {
    let mut state = two_monitors();
    state.add_window_to_active(&new_window(1, "Terminal", "AXStandardWindow"));
    settle(&mut state);
    state.process_events(vec![WindowEvent {
        kind: WindowEventKind::TitleChanged,
        pid: 5,
        app_name: "Terminal".to_string(),
        app_bundle: "com.test.Terminal".to_string(),
        role: Some("AXWindow".to_string()),
        subrole: Some("AXStandardWindow".to_string()),
        id: Some(1),
        title: Some("vim".to_string()),
        position: None,
        size: None,
    }]);
    settle(&mut state);
    assert_eq!(state.registry.get(1).expect("window 1").title, "vim");
    assert_eq!(
        WindowEventKind::from_notification("AXTitleChanged"),
        Some(WindowEventKind::TitleChanged)
    );
    assert_eq!(WindowEventKind::from_notification("AXNothing"), None);
}

#[test]
fn a_large_window_gets_a_larger_tile() {
    let mut state = two_monitors();
    for id in 1..=3 {
        state.add_window_to_active(&new_window(id, "Terminal", "AXStandardWindow"));
        settle(&mut state);
    }
    assert_eq!(state.workspaces.get(0).tree.windows(), vec![1, 2, 3]);
    state.fix_oversized_windows();
    while state.has_tasks() {
        let sizes: Vec<WindowSize> = state
            .windows_to_measure()
            .iter()
            .map(|id| WindowSize {
                id: *id,
                width: thousandths(if *id == 3 { 900.0 } else { 400.0 }),
                height: thousandths(if *id == 3 { 900.0 } else { 400.0 }),
            })
            .collect();
        state.resume(&sizes);
    }
    assert_eq!(state.workspaces.get(0).tree.windows(), vec![3, 2, 1]);
    assert!(state.workspaces.get(0).floating.is_empty());
}
