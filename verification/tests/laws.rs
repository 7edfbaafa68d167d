//! What holds of the library as a whole, on concrete values.
use tarmac::config::document::ManagedConfigDocument;
use tarmac::config::keybinds::{
    format_key_spec, key_name, parse_key_name, parse_key_spec, LuaKeybind,
};
use tarmac::config::lua::LuaConfig;
use tarmac::config::numbers::{lua_number, parse_thousandths, whole_number};
use tarmac::config::order::{dedup_defs, sort_defs, sort_specials, workspace_id_sort_key, DefOrder};
use tarmac::config::rows::{
    dedupe_keybind_rows_keep_last, resolve_keybind_rows, ConfigSource, KeybindRow, WorkspaceRow,
};
use tarmac::config::rules::{
    format_rule_action, format_rule_match, rule_id_text, RuleMatchMode, RulePattern, WindowRule,
};
use tarmac::config::special::SpecialWorkspaceConfig;
use tarmac::platform::border::BorderColor;
use tarmac::ui::editing::{add_managed_keybind, managed_keybind_index};
use tarmac::ui::rule_editing::{add_managed_rule, move_managed_rule_down, move_managed_rule_up};
use tarmac::wm::focus::opposite_direction;
use tarmac::wm::geometry::{Direction, Rect, SplitDirection};
use tarmac::wm::input::{Action, Key, Modifiers};
use tarmac::wm::monitor::{
    index_at_point, next_index, next_index_nowrap, prev_index, prev_index_nowrap,
    sort_left_to_right, Monitor,
};
use tarmac::wm::state::{NewWindow, WmState};
use tarmac::wm::tree::Node;
use tarmac::wm::workspace::{
    MonitorAssignment, WorkspaceDefinition, WorkspaceId, WorkspaceKind, WorkspaceLayout,
    WorkspaceTarget,
};

fn screen() -> Rect {
    Rect::new(0, 0, 1920 * 1000, 1080 * 1000)
}

fn tree_of(windows: u32) -> Node {
    let mut tree = Node::empty();
    for w in 1..=windows {
        let target = if w > 1 { Some(w - 1) } else { None };
        tree.insert_with_rect(w, target, screen());
    }
    tree
}

#[test]
fn tiles_fill_the_screen_and_never_overlap() {
    let tree = tree_of(5);
    let tiles = tree.calculate_focus_geometries(screen());
    assert_eq!(tiles.len(), 5);
    let area: i128 = tiles.iter().map(|(_, r)| r.width as i128 * r.height as i128).sum();
    assert_eq!(area, screen().width as i128 * screen().height as i128);
    let gapped = tree.calculate_focus_geometries_with_gaps(screen(), 10_000, 20_000, true);
    for (i, (_, a)) in gapped.iter().enumerate() {
        assert!(a.x >= 20_000 && a.x + a.width <= 1900 * 1000);
        for (_, b) in &gapped[i + 1..] {
            let apart = a.x + a.width <= b.x
                || b.x + b.width <= a.x
                || a.y + a.height <= b.y
                || b.y + b.height <= a.y;
            assert!(apart, "{a:?} overlaps {b:?}");
        }
    }
}

#[test]
fn odd_lengths_are_split_without_loss() {
    let r = Rect::new(7, 11, 1_001, 333);
    let (left, right) = r.split(SplitDirection::Vertical, 333);
    assert_eq!(left.width + right.width, 1_001);
    assert_eq!(right.x, left.x + left.width);
    assert_eq!(left.width, 333);
}

#[test]
fn swapping_twice_gives_the_tree_back() {
    let original = tree_of(4);
    let mut tree = original.clone();
    assert!(tree.swap(2, 4));
    assert_ne!(tree, original);
    assert_eq!(tree.windows(), vec![1, 4, 3, 2]);
    assert!(tree.swap(2, 4));
    assert_eq!(tree, original);
}

#[test]
fn windows_of_one_stack_trade_places() {
    let mut tree = tree_of(3);
    assert!(tree.make_stack_for_window(3));
    assert_eq!(tree.stack_info(2), Some((vec![2, 3], 1)));
    assert!(tree.swap(2, 3));
    assert_eq!(tree.stack_info(2).map(|s| s.0), Some(vec![3, 2]));
    assert_eq!(tree.window_count(), 3);
}

#[test]
fn cycling_back_and_reordering_keep_the_windows() {
    let mut tree = tree_of(3);
    assert!(tree.make_stack_for_window(3));
    let stacked = tree.clone();
    assert_eq!(tree.cycle_stack(3, false), Some(2));
    assert_eq!(tree.cycle_stack(2, true), Some(3));
    assert_eq!(tree, stacked);
    assert_eq!(tree.reorder_stack(3, false), Some(3));
    assert_eq!(tree.stack_info(3), Some((vec![3, 2], 0)));
    assert_eq!(tree.reorder_stack(3, false), None);
    assert!(tree.promote_stack_window(2));
    assert_eq!(tree.stack_info(2), Some((vec![2, 3], 0)));
}

#[test]
fn equalizing_and_resizing_keep_the_windows() {
    let mut tree = tree_of(4);
    assert!(tree.resize(1, Direction::Right, 250));
    assert!(tree.resize(4, Direction::Left, -5000));
    assert_eq!(tree.windows(), vec![1, 2, 3, 4]);
    tree.equalize();
    assert_eq!(tree, tree_of(4));
}

#[test]
fn inserting_beside_a_stack_joins_it() {
    let mut tree = tree_of(3);
    assert!(tree.make_stack_for_window(3));
    tree.insert_with_rect(9, Some(3), screen());
    assert_eq!(tree.window_count(), 4);
    assert!(tree.stack_info(9).is_some());
    assert!(tree.remove(9));
    assert_eq!(tree.window_count(), 3);
}

#[test]
fn directions_and_monitors_lead_back() {
    for d in [Direction::Left, Direction::Right, Direction::Up, Direction::Down] {
        assert_ne!(opposite_direction(d), d);
        assert_eq!(opposite_direction(opposite_direction(d)), d);
    }
    let monitor = |id: u32, x: i64| Monitor {
        id,
        frame: Rect::new(x, 0, 1000, 1000),
        usable_frame: Rect::new(x, 0, 1000, 1000),
        is_primary: id == 1,
        active_workspace: 0,
    };
    let monitors = sort_left_to_right(&vec![monitor(1, 0), monitor(2, -1000), monitor(3, 1000)]);
    assert_eq!(monitors.iter().map(|m| m.id).collect::<Vec<u32>>(), vec![2, 1, 3]);
    for i in 0..3 {
        assert_eq!(prev_index(&monitors, next_index(&monitors, i)), i);
    }
    assert_eq!(next_index_nowrap(&monitors, 2), None);
    assert_eq!(prev_index_nowrap(&monitors, 0), None);
    assert_eq!(next_index_nowrap(&monitors, 0), Some(1));
    assert_eq!(index_at_point(&monitors, -1, 5), Some(0));
    assert_eq!(index_at_point(&monitors, 5000, 5), None);
}

#[test]
fn names_are_read_back() {
    for name in ["1", "10", "W"] {
        let target = WorkspaceTarget::parse(name).expect(name);
        assert_eq!(target.to_string(), name);
        assert_eq!(WorkspaceId::parse(name), Some(target.to_workspace_id()));
    }
    let special = WorkspaceId::Special("term".to_string());
    assert_eq!(WorkspaceId::parse(&special.to_string()), Some(special.clone()));
    assert_eq!(special.as_regular_target(), None);
    assert_eq!(special.kind(), WorkspaceKind::Special);
    assert_eq!(WorkspaceLayout::parse("bsp"), Some(WorkspaceLayout::Bsp));
    assert_eq!(WorkspaceLayout::parse("grid"), None);
    for mode in [RuleMatchMode::Contains, RuleMatchMode::Exact, RuleMatchMode::Regex] {
        assert_eq!(RuleMatchMode::parse(mode.as_str()), Some(mode));
    }
    assert_eq!(RuleMatchMode::parse("fuzzy"), None);
    for key in [Key::A, Key::Num0, Key::Return, Key::Comma, Key::Left] {
        assert_eq!(parse_key_name(key_name(key)), Ok(key));
    }
    assert_eq!(key_name(Key::Slash), "slash");
    assert!(parse_key_name("slash").is_err());
    let mods = Modifiers::option().union(Modifiers::command());
    let text = format_key_spec(mods, Key::Comma, Modifiers::command());
    assert_eq!(parse_key_spec(&text, Modifiers::command()), Ok((mods, Key::Comma)));
    for hex in ["#000000", "#ffffff00", "#12abef", "#59595980"] {
        assert_eq!(BorderColor::from_hex(hex).hex_string(), hex);
    }
}

#[test]
fn numbers_are_written_and_read() {
    assert_eq!(parse_thousandths("-1.25"), Some(-1250));
    assert_eq!(parse_thousandths("1e3"), Some(1_000_000));
    assert_eq!(parse_thousandths(""), None);
    assert_eq!(parse_thousandths("1.2.3"), None);
    assert_eq!(lua_number(8000), "8");
    assert_eq!(lua_number(700), "0.70");
    assert_eq!(lua_number(-2500), "-2.50");
    assert_eq!(whole_number(12_000), "12");
    assert_eq!(rule_id_text(7), "rule_007");
}

#[test]
fn definitions_are_ordered_and_listed_once() {
    let def = |id: &str| WorkspaceDefinition::new(WorkspaceId::parse(id).expect(id));
    let defs = vec![def("special:b"), def("Q"), def("10"), def("2"), def("2")];
    let sorted = dedup_defs(sort_defs(defs, DefOrder::Kind));
    let names: Vec<String> = sorted.iter().map(|d| d.id.to_string()).collect();
    assert_eq!(names, vec!["2", "10", "Q", "special:b"]);
    assert_eq!(workspace_id_sort_key(&WorkspaceId::Lettered('Q')).0, 1);
    let specials = sort_specials(vec![
        SpecialWorkspaceConfig::default_for("web"),
        SpecialWorkspaceConfig::default_for("term"),
    ]);
    assert_eq!(specials[0].name, "term");
}

#[test]
fn a_combination_does_one_thing() {
    let row = |id: &str, source: ConfigSource, action: Action| KeybindRow {
        id: id.to_string(),
        shortcut: "mod+a".to_string(),
        action: "reload".to_string(),
        source,
        editable: source == ConfigSource::Managed,
        keybind: LuaKeybind { modifiers: Modifiers::command(), key: Key::A, action },
    };
    let managed = vec![
        row("managed:0", ConfigSource::Managed, Action::Reload),
        row("managed:1", ConfigSource::Managed, Action::Exit),
    ];
    let external = vec![row("lua:0", ConfigSource::Lua, Action::Equalize)];
    let last = dedupe_keybind_rows_keep_last(&managed);
    assert_eq!(last.len(), 1);
    assert_eq!(last[0].id, "managed:1");
    let resolved = resolve_keybind_rows(&managed, &external);
    assert_eq!(resolved.len(), 1);
    assert_eq!(resolved[0].keybind.action, Action::Exit);
    assert_eq!(resolved[0].source_label(), ConfigSource::Managed.label());
}

#[test]
fn rows_are_put_into_words() {
    let mut definition = WorkspaceDefinition::new(WorkspaceId::Special("term".to_string()));
    definition.prefs.monitor = Some(MonitorAssignment { display_id: 42 });
    definition.prefs.gap_inner = Some(12_000);
    let row = WorkspaceRow {
        id: "special:term".to_string(),
        kind: WorkspaceKind::Special,
        source: ConfigSource::Lua,
        editable: false,
        definition,
        special: Some(SpecialWorkspaceConfig::default_for("term")),
    };
    assert_eq!(row.kind_label(), "Special");
    assert_eq!(row.monitor_summary(), "Display 42");
    assert_eq!(
        row.summary(),
        "Layout BSP \u{b7} Gaps 12/default \u{b7} center 0.70\u{d7}0.70"
    );
    let mut rule = WindowRule::new();
    assert_eq!(format_rule_match(&rule), "*");
    assert_eq!(format_rule_action(&rule), "none");
    rule.title = Some(RulePattern::new("x.*", RuleMatchMode::Regex));
    rule.workspace = Some("3".to_string());
    rule.floating = Some(true);
    rule.geometry = Some((1000, 2000, 3000, 4000));
    assert_eq!(format_rule_match(&rule), "title=/x.*/");
    assert_eq!(
        format_rule_action(&rule),
        "floating=true, workspace=3, geometry=1,2,3,4"
    );
}

#[test]
fn new_entries_are_free_and_found() {
    let mut keybinds = Vec::new();
    for i in 0..5usize {
        let id = add_managed_keybind(&mut keybinds, Modifiers::command());
        assert_eq!(managed_keybind_index(&keybinds, &id), Some(i));
        for earlier in &keybinds[..i] {
            assert_ne!(earlier.key, keybinds[i].key);
        }
    }
    let mut rules = Vec::new();
    let first = add_managed_rule(&mut rules);
    let second = add_managed_rule(&mut rules);
    assert_ne!(first, second);
    assert!(move_managed_rule_up(&mut rules, &second));
    assert!(move_managed_rule_down(&mut rules, &second));
    assert_eq!(rules[1].id.as_deref(), Some(second.as_str()));
}

#[test]
fn a_new_script_takes_the_place_of_the_last() {
    let mut doc = ManagedConfigDocument::load("x = 1\n", LuaConfig::start().finish(), &None);
    let mut effective = LuaConfig::start();
    effective.settings.gap_outer = 5000;
    doc.reload_effective(effective.finish());
    assert_eq!(doc.effective.settings.gap_outer, 5000);
    assert_eq!(doc.managed.settings.gap_outer, 0);
    assert_eq!(doc.prefix, "x = 1\n");
}

#[test]
fn windows_of_a_new_program_are_laid_out() {
    let mut state = WmState::new();
    let displays = vec![Monitor {
        id: 42,
        frame: screen(),
        usable_frame: screen(),
        is_primary: true,
        active_workspace: 0,
    }];
    state.discover_and_observe(&displays, 0, 0, Vec::new());
    state.on_app_launched(vec![NewWindow {
        id: 4,
        app_pid: 8,
        app_name: "A".to_string(),
        app_bundle_id: String::new(),
        title: "a".to_string(),
        role: "AXWindow".to_string(),
        subrole: "AXStandardWindow".to_string(),
        x: 0,
        y: 0,
        width: 1000,
        height: 1000,
    }]);
    while state.has_tasks() {
        state.resume(&Vec::new());
    }
    state.take_effects();
    assert_eq!(state.active_workspace().all_window_ids(), vec![4]);
    assert_eq!(
        state.workspace_render_geometries(0, screen()),
        vec![(4, screen())]
    );
}

#[test]
fn neighbours_at_the_same_distance_keep_their_order() {
    let at = |x: i64, y: i64| Rect::new(x, y, 100_000, 100_000);
    let list = vec![
        (1, at(0, 200_000)),
        (2, at(300_000, 350_000)),
        (3, at(300_000, 50_000)),
        (4, at(150_000, 200_000)),
        (5, at(-200_000, 200_000)),
    ];
    assert_eq!(Node::adjacent_candidates(&list, 1, Direction::Right), vec![4, 2, 3]);
    let turned = vec![list[2], list[1], list[0], list[3], list[4]];
    assert_eq!(Node::adjacent_candidates(&turned, 1, Direction::Right), vec![4, 3, 2]);
    assert_eq!(Node::find_adjacent(&turned, 1, Direction::Right), Some(4));
    assert_eq!(Node::find_adjacent(&turned, 1, Direction::Left), Some(5));
    assert_eq!(Node::adjacent_candidates(&turned, 9, Direction::Left), Vec::<u32>::new());
}

#[test]
fn an_inserted_window_stands_behind_its_target() {
    let before = tree_of(4);
    let mut tree = before.clone();
    tree.insert_with_rect(9, Some(2), screen());
    assert_eq!(tree.windows(), vec![1, 2, 9, 3, 4]);
    assert!(tree.remove(9));
    assert_eq!(tree, before);
    assert!(tree.make_stack_for_window(4));
    tree.insert_with_rect(9, Some(3), screen());
    assert_eq!(tree.stack_info(9), Some((vec![3, 9, 4], 1)));
    assert!(tree.remove(9));
    assert_eq!(tree.windows(), before.windows());
}

#[test]
fn letters_are_read_in_either_case() {
    let command = Modifiers::command();
    assert_eq!(
        parse_key_spec("MOD + Shift+Q", command),
        Ok((command.union(Modifiers::shift()), Key::Q))
    );
    let pattern = RulePattern::new("SAFA", RuleMatchMode::Contains);
    assert!(pattern.matches("Safari"));
    assert!(RulePattern::new("\u{c9}T\u{c9}", RuleMatchMode::Contains).matches("l'\u{e9}t\u{e9}"));
}
