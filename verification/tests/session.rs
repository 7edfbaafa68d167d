//! Actions, requests from outside, and the configuration that is in force.
use tarmac::config::document::ManagedConfigDocument;
use tarmac::config::keybinds::LuaKeybind;
use tarmac::config::lua::LuaConfig;
use tarmac::ipc::commands::{parse_dir, HostRequest};
use tarmac::ipc::protocol::{
    answer_forwarded, handle_line, socket_path, Forwarded, LineStep, LiveWindow, Payload, Request,
    Response,
};
use tarmac::ipc::events::WmEvent;
use tarmac::session::actions::MouseEvent;
use tarmac::platform::hotkey::HOTKEY_SIGNATURE;
use tarmac::session::runtime::{
    load_runtime_config, register_hotkeys_from_config, terminal_command,
};
use tarmac::session::tray::{poll_tray_actions, TrayAction, TrayStep};
use tarmac::wm::geometry::{Direction, Rect};
use tarmac::wm::input::{Action, Key, Modifiers};
use tarmac::wm::monitor::Monitor;
use tarmac::wm::state::{NewWindow, WmState};
use tarmac::wm::workspace::{WorkspaceId, WorkspaceTarget};

fn thousandths(v: f64) -> i64 {
    (v * 1000.0).round() as i64
}

fn rect(x: f64, y: f64, width: f64, height: f64) -> Rect {
    Rect::new(thousandths(x), thousandths(y), thousandths(width), thousandths(height))
}

fn settle(state: &mut WmState) {
    state.take_effects();
    while state.has_tasks() {
        state.resume(&Vec::new());
        state.take_effects();
    }
}

fn one_monitor(windows: u32) -> WmState {
    let mut state = WmState::new();
    let displays = vec![Monitor {
        id: 42,
        frame: rect(0.0, 0.0, 1920.0, 1080.0),
        usable_frame: rect(0.0, 33.0, 1920.0, 1047.0),
        is_primary: true,
        active_workspace: 0,
    }];
    state.discover_and_observe(&displays, 0, 0, Vec::new());
    settle(&mut state);
    for id in 1..=windows {
        state.add_window_to_active(&NewWindow {
            id,
            app_pid: 5,
            app_name: "Terminal".to_string(),
            app_bundle_id: "com.test.Terminal".to_string(),
            title: format!("tab {id}"),
            role: "AXWindow".to_string(),
            subrole: "AXStandardWindow".to_string(),
            x: 0,
            y: 0,
            width: thousandths(400.0),
            height: thousandths(300.0),
        });
        settle(&mut state);
    }
    state
}

fn request(command: &str, args: &[&str]) -> Request {
    Request {
        command: command.to_string(),
        args: args.iter().map(|a| a.to_string()).collect(),
    }
}

fn send(state: &mut WmState, command: &str, args: &[&str]) -> (Response, HostRequest) {
    let reply = state.process_ipc_command(&request(command, args), &None);
    settle(state);
    reply
}

#[test]
fn an_action_is_reported() {
    let mut state = one_monitor(2);
    let report = state.handle_action(&Action::Workspace(WorkspaceTarget::Numbered(3)));
    settle(&mut state);
    assert_eq!(state.monitors[0].active_workspace, 2);
    assert!(matches!(report.host, HostRequest::Nothing));
    match report.event {
        Some(WmEvent::WorkspaceChanged { old_id, new_id, .. }) => {
            assert_eq!((old_id.as_str(), new_id.as_str()), ("1", "3"));
        }
        other => panic!("unexpected event {other:?}"),
    }
    let report = state.handle_action(&Action::SpawnTerminal);
    assert!(matches!(report.host, HostRequest::SpawnTerminal));
    assert!(report.event.is_none());
    assert!(matches!(state.handle_action(&Action::Exit).host, HostRequest::Exit));
}

#[test]
fn the_mouse_focuses_what_it_clicks() {
    let mut state = one_monitor(2);
    state.handle_mouse(MouseEvent::Click { x: thousandths(100.0), y: thousandths(500.0) });
    settle(&mut state);
    assert_eq!(state.active_workspace().focused, Some(1));
}

#[test]
fn requests_are_answered() {
    let mut state = one_monitor(2);
    let (reply, _) = send(&mut state, "focus", &["left"]);
    assert!(reply.success);
    assert_eq!(state.active_workspace().focused, Some(1));
    let (reply, _) = send(&mut state, "focus", &["sideways"]);
    assert!(!reply.success && reply.error.is_some());
    let (reply, _) = send(&mut state, "dance", &[]);
    assert!(!reply.success && reply.error.is_some());
    let (reply, host) = send(&mut state, "exec", &["open -a Music"]);
    assert!(reply.success);
    assert!(matches!(host, HostRequest::Exec(command) if command == "open -a Music"));
    let (_, host) = send(&mut state, "reload", &[]);
    assert!(matches!(host, HostRequest::Reload));
    assert_eq!(parse_dir("up"), Some(Direction::Up));
    assert_eq!(parse_dir("sideways"), None);
}

#[test]
fn questions_are_answered() {
    let mut state = one_monitor(2);
    let (reply, _) = send(&mut state, "get-workspaces", &[]);
    match reply.data {
        Some(Payload::Workspaces { active, workspaces }) => {
            assert_eq!(active, "1");
            assert_eq!(workspaces.len(), 10);
            assert_eq!(workspaces[0].windows, 2);
            assert_eq!(workspaces[0].focused, Some(2));
        }
        other => panic!("unexpected answer {other:?}"),
    }
    let live = Some(LiveWindow { title: "now".to_string(), rect: rect(1.0, 2.0, 3.0, 4.0) });
    let (reply, _) = state.process_ipc_command(&request("get-focused", &[]), &live);
    match reply.data {
        Some(Payload::Focused(info)) => {
            assert_eq!((info.id, info.title.as_str()), (2, "now"));
            assert_eq!(info.rect, rect(1.0, 2.0, 3.0, 4.0));
            assert_eq!(info.workspace, "1");
        }
        other => panic!("unexpected answer {other:?}"),
    }
    let (reply, _) = send(&mut state, "get-windows", &[]);
    assert!(matches!(reply.data, Some(Payload::Windows(list)) if list.len() == 2));
    let (reply, _) = send(&mut state, "get-monitors", &[]);
    assert!(matches!(
        reply.data,
        Some(Payload::Monitors(list)) if list.len() == 1 && list[0].active_workspace == 1
    ));
    let (reply, _) = send(&mut state, "get-tree", &[]);
    match reply.data {
        Some(Payload::Tree { workspace, tiled, floating }) => {
            assert_eq!(workspace, "1");
            assert_eq!(tiled.len(), 2);
            assert!(floating.is_empty());
        }
        other => panic!("unexpected answer {other:?}"),
    }
}

#[test]
fn a_line_is_answered_forwarded_or_skipped() {
    assert!(matches!(handle_line("  ", Err("empty".to_string())), LineStep::Skip));
    assert!(matches!(
        handle_line("{", Err("eof".to_string())),
        LineStep::Answer(reply) if !reply.success
    ));
    assert!(matches!(
        handle_line("x", Ok(request("subscribe", &["reload"]))),
        LineStep::Subscribe(filters) if filters == vec!["reload".to_string()]
    ));
    assert!(matches!(
        handle_line("x", Ok(request("focus", &["up"]))),
        LineStep::Forward(r) if r.command == "focus"
    ));
    let (reply, _) = answer_forwarded(Forwarded::Answered(Response::ok_empty()));
    assert!(reply.success);
    assert!(!answer_forwarded(Forwarded::TimedOut).0.success);
    assert!(!answer_forwarded(Forwarded::Closed).0.success);
    assert_eq!(socket_path(&None, &Some("ann".to_string())), "/tmp/tarmac-ann.sock");
    assert_eq!(socket_path(&Some("/x".to_string()), &None), "/x");
}

#[test]
fn the_configuration_in_force_joins_all_parts() {
    let mut managed = LuaConfig::start();
    managed.keybinds = vec![LuaKeybind {
        modifiers: Modifiers::command(),
        key: Key::Return,
        action: Action::Reload,
    }];
    let mut effective = LuaConfig::start();
    effective.settings.gap_inner = thousandths(6.0);
    let doc = ManagedConfigDocument::load("", effective.finish(), &Some(managed));
    let config = load_runtime_config(doc);
    assert!(config
        .keybinds
        .iter()
        .any(|b| b.key == Key::Return && b.action == Action::Reload));
    assert_eq!(config.workspace_defs.len(), 10);
    assert_eq!(terminal_command(&None), terminal_command(&Some(LuaConfig::start())));

    let mut state = one_monitor(1);
    state.reload_config(&config);
    settle(&mut state);
    assert_eq!(state.gap_inner, thousandths(6.0));
    let (entries, active) = state.update_tray();
    assert_eq!(active, "1");
    assert_eq!(entries.len(), 10);
    assert_eq!(entries[0].windows, 1);
    assert_eq!(entries[0].last_active_title.as_deref(), Some("tab 1"));
    assert_eq!(state.workspaces.get(0).id, WorkspaceId::Numbered(1));
}

#[test]
fn every_binding_becomes_a_hotkey_request() {
    let mut config = LuaConfig::start();
    for (key, action) in [(Key::Return, Action::SpawnTerminal), (Key::Q, Action::CloseWindow)] {
        config.keybinds.push(LuaKeybind { modifiers: Modifiers::command(), key, action });
    }
    let (manager, requests) = register_hotkeys_from_config(&config, u32::MAX);
    assert_eq!(requests.len(), 2);
    assert_eq!((requests[0].code, requests[0].id), (0x24, u32::MAX));
    assert_eq!((requests[1].code, requests[1].id), (0x0C, 0));
    assert_eq!(requests[1].signature, HOTKEY_SIGNATURE);
    assert_eq!(manager.next_id, 1);
    assert!(manager.actions.is_empty());
}

#[test]
fn the_menu_acts_or_opens_the_settings() {
    let steps = poll_tray_actions(&vec![
        TrayAction::SwitchWorkspace(WorkspaceTarget::Lettered('W')),
        TrayAction::OpenSettings,
        TrayAction::Reload,
        TrayAction::Quit,
    ]);
    assert_eq!(steps.len(), 4);
    assert!(matches!(
        &steps[0],
        TrayStep::Act(Action::Workspace(WorkspaceTarget::Lettered('W')))
    ));
    assert!(matches!(&steps[1], TrayStep::OpenSettings));
    assert!(matches!(&steps[2], TrayStep::Act(Action::Reload)));
    assert!(matches!(&steps[3], TrayStep::Act(Action::Exit)));
}

#[test]
fn requests_are_answered_without_monitors() {
    let mut state = WmState::new();
    let mut ask = |command: &str, args: &[&str]| {
        let request = Request {
            command: command.to_string(),
            args: args.iter().map(|a| a.to_string()).collect(),
        };
        state.process_ipc_command(&request, &None).0
    };
    let usage = ask("workspace", &["0"]);
    assert!(!usage.success);
    assert!(usage.data.is_none());
    assert_eq!(usage.error.as_deref(), Some("usage: workspace <1-10|A-Z>"));
    assert_eq!(ask("exec", &[]).error.as_deref(), Some("usage: exec <command>"));
    assert_eq!(ask("dance", &[]).error.as_deref(), Some("unknown command: dance"));
    assert!(ask("reload", &[]).success);
    assert!(ask("get-windows", &[]).success);
    assert!(ask("get-monitors", &[]).success);
    assert_eq!(state.workspaces.count(), 10);
    assert!(state.monitors.is_empty());
}

#[test]
fn without_monitors_windows_and_actions_are_still_dealt_with() {
    let mut state = WmState::new();
    assert!(matches!(state.handle_action(&Action::Exit).host, HostRequest::Exit));
    assert!(state.handle_action(&Action::FocusMonitorNext).script.is_some());
    state.handle_mouse(MouseEvent::LeftUp { x: 0, y: 0 });
    state.on_window_closed(7);
    state.refresh_monitors(&Vec::new());
    while state.has_tasks() {
        state.resume(&Vec::new());
    }
    assert!(state.monitors.is_empty());
}
