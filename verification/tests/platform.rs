//! Colors, displays, hotkeys, the poll of windows and the groups of windows.
use tarmac::config::settings::Settings;
use tarmac::platform::application::{
    discover_applications, enumerate_windows, AppInfo, RunningApp, WindowReading,
};
use tarmac::platform::border::{shortest_number, BorderColor, BorderManager, Renderer};
use tarmac::platform::display::{
    discover_displays, reserve_menu_bar, top_left_rect_from_visible_frame, DisplayDebounce,
    DisplayInfo, NSRect, ScreenInfo,
};
use tarmac::platform::hotkey::{
    key_to_carbon, modifiers_to_carbon, register_defaults, HotkeyManager, CMD_KEY, CONTROL_KEY,
    HOTKEY_SIGNATURE, OPTION_KEY, SHIFT_KEY,
};
use tarmac::platform::window_group::window_group_ids;
use tarmac::platform::workspace_observer::{CgWindow, WorkspacePollingObserver};
use tarmac::wm::geometry::Rect;
use tarmac::wm::input::{keycode_to_key, Action, Key, Modifiers};

fn thousandths(v: f64) -> i64 {
    (v * 1000.0).round() as i64
}

fn rect(x: f64, y: f64, width: f64, height: f64) -> Rect {
    Rect::new(thousandths(x), thousandths(y), thousandths(width), thousandths(height))
}

fn ns_rect(x: f64, y: f64, width: f64, height: f64) -> NSRect {
    NSRect {
        x: thousandths(x),
        y: thousandths(y),
        width: thousandths(width),
        height: thousandths(height),
    }
}

fn channel(v: u8) -> f64 {
    v as f64 / 255.0
}

#[test]
fn malformed_hex_falls_back_without_panicking() {
    let color = BorderColor::from_hex("#fff");
    assert_eq!(channel(color.r), 0.0);
    assert_eq!(channel(color.g), 0.0);
    assert_eq!(channel(color.b), 0.0);
    assert_eq!(channel(color.a), 1.0);
}

#[test]
fn parses_rgba_hex() {
    let color = BorderColor::from_hex("#11223380");
    assert_eq!(color.hex_string(), "#11223380");
}

#[test]
fn an_opaque_color_has_no_alpha_digits() {
    let color = BorderColor::from_hex("#a1b2c3");
    assert_eq!((color.r, color.g, color.b, color.a), (0xa1, 0xb2, 0xc3, 0xff));
    assert_eq!(BorderColor::from_hex(&color.hex_string()), color);
}

#[test]
fn numbers_are_written_without_trailing_zeros() {
    assert_eq!(shortest_number(2000), "2");
    assert_eq!(shortest_number(2500), "2.5");
    assert_eq!(shortest_number(125), "0.125");
}

#[test]
fn borders_are_restarted_on_a_budget() {
    let mut borders = BorderManager::new();
    assert!(borders.spawn().is_none());
    assert!(!borders.check_is_due(0));
    borders.border_width = thousandths(2.5);
    borders.focused_color = BorderColor::from_hex("#5294e2");
    let args = borders.spawn().expect("borders are on");
    assert_eq!(args[..3], ["--active-only", "--width", "2.5"]);
    assert!(args.contains(&"#5294e2".to_string()), "{args:?}");
    assert!(borders.check_is_due(0));
    assert!(!borders.health_check(0, Renderer::Running));
    assert!(!borders.check_is_due(999));
    assert!(!borders.health_check(999, Renderer::Ended));
    assert!(borders.check_is_due(1000));
    let mut allowed = 0;
    for second in 0..20u64 {
        if borders.health_check(10_000 + second * 1000, Renderer::Ended) {
            allowed += 1;
        }
    }
    assert_eq!(allowed, 5);
    assert_eq!(borders.backoff_until, Some(315_000));
    assert!(borders.restart().is_some());
    assert!(borders.health_check(30_000, Renderer::Ended));
}

#[test]
fn the_renderer_is_tried_once_more_after_the_cooldown() {
    let mut borders = BorderManager::new();
    borders.border_width = thousandths(2.0);
    assert!(!borders.health_check(0, Renderer::Absent));
    for second in 1..=5u64 {
        assert!(borders.health_check(second * 1000, Renderer::Ended));
    }
    assert!(!borders.health_check(6000, Renderer::Ended));
    assert_eq!(borders.backoff_until, Some(306_000));
    assert!(!borders.health_check(305_000, Renderer::Absent));
    assert!(borders.health_check(306_000, Renderer::Absent));
    assert_eq!(borders.backoff_until, None);
    assert_eq!(borders.recent_restarts, vec![306_000]);
    borders.backoff_until = None;
    borders.recent_restarts = vec![u64::MAX; 5];
    assert!(!borders.health_check(u64::MAX, Renderer::Ended));
    assert_eq!(borders.backoff_until, Some(u64::MAX));
}

#[test]
fn converts_main_display_visible_frame_to_top_left_space() {
    let visible = ns_rect(0.0, 0.0, 1920.0, 1055.0);

    assert_eq!(
        top_left_rect_from_visible_frame(visible, thousandths(1080.0)),
        rect(0.0, 25.0, 1920.0, 1055.0)
    );
}

#[test]
fn converts_display_below_main_to_top_left_space() {
    let visible = ns_rect(0.0, -1080.0, 1920.0, 1080.0);

    assert_eq!(
        top_left_rect_from_visible_frame(visible, thousandths(1080.0)),
        rect(0.0, 1080.0, 1920.0, 1080.0)
    );
}

#[test]
fn displays_get_the_frame_of_their_screen() {
    let displays = vec![
        DisplayInfo { id: 1, frame: rect(0.0, 0.0, 1920.0, 1080.0) },
        DisplayInfo { id: 2, frame: rect(1920.0, 0.0, 1280.0, 720.0) },
    ];
    let screens = vec![ScreenInfo {
        display_id: Some(1),
        visible: ns_rect(0.0, 0.0, 1920.0, 1055.0),
    }];
    let monitors = discover_displays(&displays, 1, thousandths(1080.0), &screens);
    assert_eq!(monitors.len(), 2);
    assert!(monitors[0].is_primary);
    assert_eq!(monitors[0].usable_frame, rect(0.0, 25.0, 1920.0, 1055.0));
    assert_eq!(monitors[1].frame, rect(1920.0, 0.0, 1280.0, 720.0));
    assert!(monitors[1].usable_frame.y > monitors[1].frame.y);
    let again = reserve_menu_bar(&monitors);
    assert_eq!(again, monitors);
}

#[test]
fn displays_report_once_in_half_a_second() {
    let mut debounce = DisplayDebounce::new();
    assert!(!debounce.reported(1, 0));
    assert!(debounce.reported(0, 10));
    assert!(!debounce.reported(0, 509));
    assert!(debounce.reported(0, 510));
}

#[test]
fn carbon_keycode_roundtrip() {
    // Every keycode that maps to a Key via keycode_to_key should
    // produce the same keycode back via key_to_carbon
    for code in 0x00..=0xFF_u16 {
        if let Some(key) = keycode_to_key(code) {
            let carbon = key_to_carbon(key);
            assert_eq!(
                carbon,
                Some(code as u32),
                "key {:?} from keycode 0x{:02X} produced carbon keycode {:?}",
                key,
                code,
                carbon
            );
        }
    }
}

#[test]
fn modifier_conversion() {
    assert_eq!(modifiers_to_carbon(Modifiers::command()), CMD_KEY);
    assert_eq!(modifiers_to_carbon(Modifiers::shift()), SHIFT_KEY);
    assert_eq!(modifiers_to_carbon(Modifiers::option()), OPTION_KEY);
    assert_eq!(modifiers_to_carbon(Modifiers::control()), CONTROL_KEY);
    assert_eq!(
        modifiers_to_carbon(Modifiers::command().union(Modifiers::shift())),
        CMD_KEY | SHIFT_KEY
    );
}

#[test]
fn a_registered_hotkey_fires() {
    let mut hotkeys = HotkeyManager::new(7);
    let request = hotkeys.request(Modifiers::option(), Key::Return);
    assert_eq!((request.code, request.modifiers), (0x24, OPTION_KEY));
    assert_eq!((request.signature, request.id), (HOTKEY_SIGNATURE, 7));
    assert!(hotkeys.register(request.id, &Action::SpawnTerminal, 0));
    let refused = hotkeys.request(Modifiers::option(), Key::Tab);
    assert!(!hotkeys.register(refused.id, &Action::Exit, -9878));
    let (status, action) = hotkeys.fired(0, HOTKEY_SIGNATURE, 7);
    assert_eq!((status, action), (0, Some(Action::SpawnTerminal)));
    assert_eq!(hotkeys.fired(0, HOTKEY_SIGNATURE, refused.id).1, None);
    assert_eq!(hotkeys.fired(0, 1, 7).1, None);
    assert!(!register_defaults().is_empty());
}

#[test]
fn frontmost_app_change_emits_only_when_pid_changes() {
    let mut events = Vec::new();
    let mut observer = WorkspacePollingObserver {
        known_windows: Vec::new(),
        known_pids: vec![1, 2],
        known_frontmost_pid: Some(1),
    };

    for frontmost in [Some(1), Some(2), Some(2)] {
        let report = observer.poll_with_snapshot(&vec![], &vec![1, 2], frontmost, &vec![]);
        if let Some(pid) = report.frontmost {
            events.push(pid);
        }
    }

    assert_eq!(events, vec![2]);
}

#[test]
fn windows_and_programs_that_go_are_reported() {
    let mut observer = WorkspacePollingObserver {
        known_windows: vec![(10, 1), (11, 1), (12, 2)],
        known_pids: vec![1, 2],
        known_frontmost_pid: None,
    };
    let listed = vec![
        CgWindow { wid: 10, pid: 1, owner: "Terminal".to_string() },
        CgWindow { wid: 13, pid: 1, owner: "Terminal".to_string() },
    ];
    let fresh = observer.poll(&listed);
    assert_eq!(fresh.iter().map(|w| w.wid).collect::<Vec<u32>>(), vec![13]);
    let report = observer.poll_with_snapshot(&vec![(10, 1), (13, 1)], &vec![1], None, &vec![11]);
    assert_eq!(report.closed, vec![(12, 2)]);
    assert_eq!(report.terminated, vec![2]);
    assert_eq!(report.frontmost, None);
}

#[test]
fn a_window_group_is_sorted_and_holds_each_surface_once() {
    assert_eq!(window_group_ids(5, &vec![]), vec![5]);
    assert_eq!(window_group_ids(5, &vec![9, 5, 0, -3, 2, 9]), vec![2, 5, 9]);
}

#[test]
fn borders_take_over_the_settings() {
    let mut settings = Settings::default();
    settings.border_width = thousandths(4.0);
    settings.border_color_unfocused = "#59595980".to_string();
    let mut borders = BorderManager::new();
    borders.configure(&settings);
    assert!(borders.is_enabled());
    assert_eq!(borders.unfocused_color.a, 0x80);
    assert_eq!(borders.radius, settings.border_radius);
}

#[test]
fn only_ordinary_programs_with_a_name_are_looked_at() {
    let app = |pid: i32, is_regular: bool, bundle: Option<&str>, name: Option<&str>| RunningApp {
        pid,
        is_regular,
        bundle_id: bundle.map(str::to_string),
        name: name.map(str::to_string),
    };
    let found = discover_applications(&vec![
        app(1, true, Some("com.test.a"), Some("A")),
        app(2, false, Some("com.test.b"), Some("B")),
        app(3, true, None, Some("C")),
        app(4, true, Some("com.test.d"), None),
    ]);
    assert_eq!(found.len(), 1);
    assert_eq!((found[0].pid, found[0].name.as_str()), (1, "A"));
}

#[test]
fn windows_without_a_number_or_of_another_kind_are_left_out() {
    let reading = |id: Option<u32>, subrole: &str| WindowReading {
        id,
        title: None,
        role: Some("AXWindow".to_string()),
        subrole: Some(subrole.to_string()),
        position: Some((1, 2)),
        size: None,
    };
    let app = AppInfo {
        pid: 9,
        bundle_id: "com.test.a".to_string(),
        name: "A".to_string(),
    };
    let windows = enumerate_windows(
        &app,
        &vec![
            reading(Some(5), "AXStandardWindow"),
            reading(None, "AXStandardWindow"),
            reading(Some(6), "AXUnknown"),
        ],
    );
    assert_eq!(windows.len(), 1);
    let window = &windows[0];
    assert_eq!((window.id, window.app_pid), (5, 9));
    assert_eq!((window.x, window.y, window.width, window.height), (1, 2, 0, 0));
    assert_eq!(window.title, "");
}
