//! The tiling tree: splitting, inserting, removing, geometry and stacks.
use tarmac::wm::geometry::{Direction, Rect, SplitDirection};
use tarmac::wm::tree::Node;
use tarmac::wm::window::WindowId;

fn thousandths(v: f64) -> i64 {
    (v * 1000.0).round() as i64
}

fn points(v: i64) -> f64 {
    v as f64 / 1000.0
}

fn rect(x: f64, y: f64, width: f64, height: f64) -> Rect {
    Rect::new(thousandths(x), thousandths(y), thousandths(width), thousandths(height))
}

fn screen() -> Rect {
    rect(0.0, 0.0, 1920.0, 1080.0)
}

fn approx_eq(a: f64, b: f64) -> bool {
    (a - b).abs() < 0.01
}

fn assert_rect_approx(r: &Rect, x: f64, y: f64, w: f64, h: f64) {
    assert!(
        approx_eq(points(r.x), x)
            && approx_eq(points(r.y), y)
            && approx_eq(points(r.width), w)
            && approx_eq(points(r.height), h),
        "expected ({x}, {y}, {w}, {h}), got ({}, {}, {}, {})",
        points(r.x),
        points(r.y),
        points(r.width),
        points(r.height)
    );
}

// --- Rect tests ---

#[test]
fn rect_split_vertical() {
    let r = rect(0.0, 0.0, 1000.0, 500.0);
    let (left, right) = r.split(SplitDirection::Vertical, thousandths(0.5));
    assert_rect_approx(&left, 0.0, 0.0, 500.0, 500.0);
    assert_rect_approx(&right, 500.0, 0.0, 500.0, 500.0);
}

#[test]
fn rect_split_horizontal() {
    let r = rect(0.0, 0.0, 1000.0, 500.0);
    let (top, bottom) = r.split(SplitDirection::Horizontal, thousandths(0.5));
    assert_rect_approx(&top, 0.0, 0.0, 1000.0, 250.0);
    assert_rect_approx(&bottom, 0.0, 250.0, 1000.0, 250.0);
}

#[test]
fn rect_split_uneven() {
    let r = rect(100.0, 200.0, 800.0, 600.0);
    let (left, right) = r.split(SplitDirection::Vertical, thousandths(0.3));
    assert_rect_approx(&left, 100.0, 200.0, 240.0, 600.0);
    assert_rect_approx(&right, 340.0, 200.0, 560.0, 600.0);
}

#[test]
fn rect_center() {
    let r = rect(100.0, 200.0, 400.0, 300.0);
    assert_eq!(r.center(), (thousandths(300.0), thousandths(350.0)));
}

#[test]
fn rect_contains_point() {
    let r = rect(100.0, 100.0, 200.0, 200.0);
    assert!(r.contains_point(thousandths(150.0), thousandths(150.0)));
    assert!(r.contains_point(thousandths(100.0), thousandths(100.0)));
    assert!(!r.contains_point(thousandths(300.0), thousandths(300.0)));
    assert!(!r.contains_point(thousandths(50.0), thousandths(150.0)));
}

// --- Node basic tests ---

#[test]
fn empty_tree() {
    let tree = Node::empty();
    assert!(tree.is_empty());
    assert_eq!(tree.window_count(), 0);
    assert!(tree.windows().is_empty());
}

#[test]
fn insert_into_empty() {
    let mut tree = Node::empty();
    tree.insert(1, None);
    assert!(!tree.is_empty());
    assert_eq!(tree.window_count(), 1);
    assert!(tree.contains(1));
}

#[test]
fn insert_two_windows() {
    let mut tree = Node::empty();
    tree.insert(1, None);
    tree.insert(2, Some(1));
    assert_eq!(tree.window_count(), 2);
    assert!(tree.contains(1));
    assert!(tree.contains(2));
}

#[test]
fn insert_three_windows() {
    let mut tree = Node::empty();
    tree.insert(1, None);
    tree.insert(2, Some(1));
    tree.insert(3, Some(2));
    assert_eq!(tree.window_count(), 3);
    assert!(tree.contains(1));
    assert!(tree.contains(2));
    assert!(tree.contains(3));
}

#[test]
fn remove_single_window() {
    let mut tree = Node::empty();
    tree.insert(1, None);
    assert!(tree.remove(1));
    assert!(tree.is_empty());
}

#[test]
fn remove_from_two_collapses() {
    let mut tree = Node::empty();
    tree.insert(1, None);
    tree.insert(2, Some(1));
    assert!(tree.remove(1));
    assert_eq!(tree.window_count(), 1);
    assert!(tree.contains(2));
    // Should have collapsed back to a leaf
    assert!(matches!(tree, Node::Leaf { window: Some(2) }));
}

#[test]
fn remove_nonexistent() {
    let mut tree = Node::empty();
    tree.insert(1, None);
    assert!(!tree.remove(99));
    assert_eq!(tree.window_count(), 1);
}

#[test]
fn remove_from_three() {
    let mut tree = Node::empty();
    tree.insert(1, None);
    tree.insert(2, Some(1));
    tree.insert(3, Some(2));
    assert!(tree.remove(2));
    assert_eq!(tree.window_count(), 2);
    assert!(tree.contains(1));
    assert!(tree.contains(3));
}

// --- Geometry tests ---

#[test]
fn geometry_single_window() {
    let mut tree = Node::empty();
    tree.insert(1, None);
    let geoms = tree.calculate_geometries(screen());
    assert_eq!(geoms.len(), 1);
    assert_eq!(geoms[0].0, 1);
    assert_rect_approx(&geoms[0].1, 0.0, 0.0, 1920.0, 1080.0);
}

#[test]
fn geometry_two_windows_vertical_split() {
    let mut tree = Node::empty();
    tree.insert(1, None);
    tree.insert(2, Some(1));
    let geoms = tree.calculate_geometries(screen());
    assert_eq!(geoms.len(), 2);

    let g1 = geoms.iter().find(|(w, _)| *w == 1).unwrap();
    let g2 = geoms.iter().find(|(w, _)| *w == 2).unwrap();

    // Window 1: left half
    assert_rect_approx(&g1.1, 0.0, 0.0, 960.0, 1080.0);
    // Window 2: right half
    assert_rect_approx(&g2.1, 960.0, 0.0, 960.0, 1080.0);
}

#[test]
fn geometry_three_windows_smart_split() {
    let mut tree = Node::empty();
    tree.insert_with_rect(1, None, screen());
    tree.insert_with_rect(2, Some(1), screen());
    tree.insert_with_rect(3, Some(2), screen());
    let geoms = tree.calculate_geometries(screen());
    assert_eq!(geoms.len(), 3);

    let g1 = geoms.iter().find(|(w, _)| *w == 1).unwrap();
    let g2 = geoms.iter().find(|(w, _)| *w == 2).unwrap();
    let g3 = geoms.iter().find(|(w, _)| *w == 3).unwrap();

    // Window 1: left half (1920 > 1080, so first split is vertical)
    assert_rect_approx(&g1.1, 0.0, 0.0, 960.0, 1080.0);
    // Window 2: right half is 960x1080 (taller than wide), so split horizontal
    // Window 2: top-right
    assert_rect_approx(&g2.1, 960.0, 0.0, 960.0, 540.0);
    // Window 3: bottom-right
    assert_rect_approx(&g3.1, 960.0, 540.0, 960.0, 540.0);
}

#[test]
fn smart_split_four_windows() {
    let mut tree = Node::empty();
    tree.insert_with_rect(1, None, screen());
    tree.insert_with_rect(2, Some(1), screen());
    tree.insert_with_rect(3, Some(2), screen());
    tree.insert_with_rect(4, Some(3), screen());
    let geoms = tree.calculate_geometries(screen());
    assert_eq!(geoms.len(), 4);

    let g1 = geoms.iter().find(|(w, _)| *w == 1).unwrap();
    let g2 = geoms.iter().find(|(w, _)| *w == 2).unwrap();
    let g3 = geoms.iter().find(|(w, _)| *w == 3).unwrap();
    let g4 = geoms.iter().find(|(w, _)| *w == 4).unwrap();

    assert_rect_approx(&g1.1, 0.0, 0.0, 960.0, 1080.0);
    assert_rect_approx(&g2.1, 960.0, 0.0, 960.0, 540.0);
    // Bottom-right 960x540 is wider than tall so vertical split
    assert_rect_approx(&g3.1, 960.0, 540.0, 480.0, 540.0);
    assert_rect_approx(&g4.1, 1440.0, 540.0, 480.0, 540.0);
}

#[test]
fn smart_split_direction_wide() {
    assert_eq!(
        Node::smart_split_direction(&rect(0.0, 0.0, 1920.0, 1080.0)),
        SplitDirection::Vertical
    );
}

#[test]
fn smart_split_direction_tall() {
    assert_eq!(
        Node::smart_split_direction(&rect(0.0, 0.0, 960.0, 1080.0)),
        SplitDirection::Horizontal
    );
}

#[test]
fn smart_split_direction_square() {
    // Equal so horizontal (height >= width)
    assert_eq!(
        Node::smart_split_direction(&rect(0.0, 0.0, 500.0, 500.0)),
        SplitDirection::Horizontal
    );
}

#[test]
fn geometry_empty_tree() {
    let tree = Node::empty();
    let geoms = tree.calculate_geometries(screen());
    assert!(geoms.is_empty());
}

#[test]
fn geometry_after_remove() {
    let mut tree = Node::empty();
    tree.insert(1, None);
    tree.insert(2, Some(1));
    tree.remove(1);
    let geoms = tree.calculate_geometries(screen());
    assert_eq!(geoms.len(), 1);
    assert_rect_approx(&geoms[0].1, 0.0, 0.0, 1920.0, 1080.0);
}

// --- Equalize test ---

#[test]
fn equalize_resets_ratios() {
    let mut tree = Node::Internal {
        split: SplitDirection::Vertical,
        ratio: thousandths(0.3),
        left: Box::new(Node::Leaf { window: Some(1) }),
        right: Box::new(Node::Internal {
            split: SplitDirection::Horizontal,
            ratio: thousandths(0.7),
            left: Box::new(Node::Leaf { window: Some(2) }),
            right: Box::new(Node::Leaf { window: Some(3) }),
        }),
    };
    tree.equalize();
    let geoms = tree.calculate_geometries(screen());
    let g1 = geoms.iter().find(|(w, _)| *w == 1).unwrap();
    assert_rect_approx(&g1.1, 0.0, 0.0, 960.0, 1080.0);
}

// --- Swap test ---

#[test]
fn swap_two_windows() {
    let mut tree = Node::empty();
    tree.insert(1, None);
    tree.insert(2, Some(1));
    assert!(tree.swap(1, 2));

    let geoms = tree.calculate_geometries(screen());
    let g1 = geoms.iter().find(|(w, _)| *w == 1).unwrap();
    let g2 = geoms.iter().find(|(w, _)| *w == 2).unwrap();
    // After swap: window 1 should be on the right, window 2 on the left
    assert_rect_approx(&g2.1, 0.0, 0.0, 960.0, 1080.0);
    assert_rect_approx(&g1.1, 960.0, 0.0, 960.0, 1080.0);
}

// --- Find adjacent test ---

#[test]
fn find_adjacent_left_right() {
    let mut tree = Node::empty();
    tree.insert(1, None);
    tree.insert(2, Some(1));
    let geoms = tree.calculate_geometries(screen());

    assert_eq!(Node::find_adjacent(&geoms, 1, Direction::Right), Some(2));
    assert_eq!(Node::find_adjacent(&geoms, 2, Direction::Left), Some(1));
    assert_eq!(Node::find_adjacent(&geoms, 1, Direction::Left), None);
    assert_eq!(Node::find_adjacent(&geoms, 2, Direction::Right), None);
}

// --- Resize test ---

#[test]
fn resize_grows_left_window() {
    let mut tree = Node::empty();
    tree.insert(1, None);
    tree.insert(2, Some(1));
    assert!(tree.resize(1, Direction::Right, thousandths(0.1)));

    let geoms = tree.calculate_geometries(screen());
    let g1 = geoms.iter().find(|(w, _)| *w == 1).unwrap();
    // Ratio should now be 0.6, so window 1 is 60% width
    assert_rect_approx(&g1.1, 0.0, 0.0, 1152.0, 1080.0);
}

#[test]
fn resize_clamps_at_bounds() {
    let mut tree = Node::empty();
    tree.insert(1, None);
    tree.insert(2, Some(1));
    // Try to resize way past the limit
    for _ in 0..20 {
        tree.resize(1, Direction::Right, thousandths(0.1));
    }
    let geoms = tree.calculate_geometries(screen());
    let g1 = geoms.iter().find(|(w, _)| *w == 1).unwrap();
    // Should clamp at 0.9 = 1728px
    assert_rect_approx(&g1.1, 0.0, 0.0, 1728.0, 1080.0);
}

// --- Windows / first_window ---

#[test]
fn windows_returns_all() {
    let mut tree = Node::empty();
    tree.insert(1, None);
    tree.insert(2, Some(1));
    tree.insert(3, Some(2));
    let mut ws = tree.windows();
    ws.sort();
    assert_eq!(ws, vec![1, 2, 3]);
}

#[test]
fn first_window_returns_leftmost() {
    let mut tree = Node::empty();
    tree.insert(1, None);
    tree.insert(2, Some(1));
    assert_eq!(tree.first_window(), Some(1));
}

// --- Edge cases ---

#[test]
fn rect_zero_size() {
    let r = rect(100.0, 200.0, 0.0, 0.0);
    let (left, right) = r.split(SplitDirection::Vertical, thousandths(0.5));
    assert_eq!(points(left.width), 0.0);
    assert_eq!(points(right.width), 0.0);
}

#[test]
fn insert_remove_all_then_reinsert() {
    let mut tree = Node::empty();
    tree.insert(1, None);
    tree.insert(2, Some(1));
    tree.remove(1);
    tree.remove(2);
    assert!(tree.is_empty());
    tree.insert(3, None);
    assert_eq!(tree.window_count(), 1);
    assert!(tree.contains(3));
}

#[test]
fn remove_same_window_twice() {
    let mut tree = Node::empty();
    tree.insert(1, None);
    assert!(tree.remove(1));
    assert!(!tree.remove(1)); // second remove returns false
}

#[test]
fn swap_nonexistent_windows() {
    let mut tree = Node::empty();
    tree.insert(1, None);
    tree.insert(2, Some(1));
    assert!(!tree.swap(1, 99)); // 99 doesn't exist
}

#[test]
fn resize_single_window_noop() {
    let mut tree = Node::empty();
    tree.insert(1, None);
    assert!(!tree.resize(1, Direction::Right, thousandths(0.1)));
}

#[test]
fn find_adjacent_single_window() {
    let mut tree = Node::empty();
    tree.insert(1, None);
    let geoms = tree.calculate_geometries(screen());
    assert_eq!(Node::find_adjacent(&geoms, 1, Direction::Right), None);
    assert_eq!(Node::find_adjacent(&geoms, 1, Direction::Left), None);
}

#[test]
fn geometry_preserves_total_area() {
    let mut tree = Node::empty();
    tree.insert_with_rect(1, None, screen());
    tree.insert_with_rect(2, Some(1), screen());
    tree.insert_with_rect(3, Some(2), screen());
    tree.insert_with_rect(4, Some(3), screen());

    let geoms = tree.calculate_geometries(screen());
    let total_area: f64 = geoms.iter().map(|(_, r)| points(r.width) * points(r.height)).sum();
    let screen_area = points(screen().width) * points(screen().height);
    assert!(
        (total_area - screen_area).abs() < 0.01,
        "total area {} != screen area {}",
        total_area,
        screen_area
    );
}

#[test]
fn find_adjacent_four_windows() {
    let mut tree = Node::empty();
    tree.insert_with_rect(1, None, screen());
    tree.insert_with_rect(2, Some(1), screen());
    tree.insert_with_rect(3, Some(2), screen());
    tree.insert_with_rect(4, Some(3), screen());
    let geoms = tree.calculate_geometries(screen());

    // In the 4-window smart-split layout:
    // Win1 is full-height left column. Win2 and Win3 both share an edge
    // and equal vertical overlap. Tiebreaker: center closest to source
    // center (y=540). Win2 center y=270 (dist=270) < Win3 center y=810 (dist=270).
    // Equal tiebreaker, but Win2 comes first so picks 2.
    assert_eq!(Node::find_adjacent(&geoms, 1, Direction::Right), Some(2));
    assert_eq!(Node::find_adjacent(&geoms, 2, Direction::Left), Some(1));
    assert_eq!(Node::find_adjacent(&geoms, 2, Direction::Down), Some(3));
    assert_eq!(Node::find_adjacent(&geoms, 3, Direction::Up), Some(2));
    assert_eq!(Node::find_adjacent(&geoms, 3, Direction::Right), Some(4));
    assert_eq!(Node::find_adjacent(&geoms, 4, Direction::Left), Some(3));
}

#[test]
fn adjacent_candidates_preserve_focus_priority_order() {
    let mut tree = Node::empty();
    tree.insert_with_rect(1, None, screen());
    tree.insert_with_rect(2, Some(1), screen());
    tree.insert_with_rect(3, Some(2), screen());
    let geoms = tree.calculate_geometries(screen());

    assert_eq!(
        Node::adjacent_candidates(&geoms, 1, Direction::Right),
        vec![2, 3]
    );
    assert_eq!(
        Node::adjacent_candidates(&geoms, 2, Direction::Left),
        vec![1]
    );
}

// --- Nearest to edge tests ---

#[test]
fn nearest_to_edge_picks_leftmost_on_right_cross() {
    // Simulate 4-window layout
    let mut tree = Node::empty();
    tree.insert_with_rect(1, None, screen());
    tree.insert_with_rect(2, Some(1), screen());
    tree.insert_with_rect(3, Some(2), screen());
    tree.insert_with_rect(4, Some(3), screen());
    let geoms = tree.calculate_geometries(screen());
    // Pressing Right to enter this monitor so want leftmost window
    // Win1 is at x=0 (leftmost)
    assert_eq!(Node::nearest_to_edge(&geoms, Direction::Right), Some(1));
}

#[test]
fn nearest_to_edge_picks_rightmost_on_left_cross() {
    let mut tree = Node::empty();
    tree.insert_with_rect(1, None, screen());
    tree.insert_with_rect(2, Some(1), screen());
    tree.insert_with_rect(3, Some(2), screen());
    tree.insert_with_rect(4, Some(3), screen());
    let geoms = tree.calculate_geometries(screen());
    // Pressing Left to enter this monitor so want rightmost window
    // Win4 center=(1680,810) is rightmost
    assert_eq!(Node::nearest_to_edge(&geoms, Direction::Left), Some(4));
}

#[test]
fn nearest_to_edge_empty() {
    let geoms: Vec<(WindowId, Rect)> = vec![];
    assert_eq!(Node::nearest_to_edge(&geoms, Direction::Right), None);
}

#[test]
fn nearest_to_edge_single_window() {
    let geoms = vec![(1, rect(0.0, 0.0, 1920.0, 1080.0))];
    assert_eq!(Node::nearest_to_edge(&geoms, Direction::Right), Some(1));
    assert_eq!(Node::nearest_to_edge(&geoms, Direction::Left), Some(1));
}

// --- Gap tests ---

#[test]
fn gaps_reduce_window_sizes() {
    let mut tree = Node::empty();
    tree.insert_with_rect(1, None, screen());
    tree.insert_with_rect(2, Some(1), screen());

    let geoms_no_gap = tree.calculate_geometries(screen());
    let geoms_with_gap = tree.calculate_geometries_with_gaps(screen(), thousandths(10.0), thousandths(20.0), true);

    // With outer gap, windows should be smaller
    let g1_no = geoms_no_gap.iter().find(|(w, _)| *w == 1).unwrap();
    let g1_gap = geoms_with_gap.iter().find(|(w, _)| *w == 1).unwrap();
    assert!(g1_gap.1.width < g1_no.1.width);
    assert!(g1_gap.1.x > g1_no.1.x); // shifted by outer gap
}

#[test]
fn gaps_preserve_no_overlap() {
    let mut tree = Node::empty();
    tree.insert_with_rect(1, None, screen());
    tree.insert_with_rect(2, Some(1), screen());

    let geoms = tree.calculate_geometries_with_gaps(screen(), thousandths(10.0), thousandths(20.0), true);
    let g1 = geoms.iter().find(|(w, _)| *w == 1).unwrap();
    let g2 = geoms.iter().find(|(w, _)| *w == 2).unwrap();

    // Windows should not overlap so g1's right edge should be left of g2's left edge
    let g1_right = g1.1.x + g1.1.width;
    assert!(
        g1_right <= g2.1.x,
        "windows overlap: g1 right {} > g2 left {}",
        g1_right,
        g2.1.x
    );
}

#[test]
fn zero_gaps_same_as_no_gaps() {
    let mut tree = Node::empty();
    tree.insert_with_rect(1, None, screen());
    tree.insert_with_rect(2, Some(1), screen());

    let geoms_default = tree.calculate_geometries(screen());
    let geoms_zero = tree.calculate_geometries_with_gaps(screen(), thousandths(0.0), thousandths(0.0), true);

    assert_eq!(geoms_default.len(), geoms_zero.len());
    for i in 0..geoms_default.len() {
        assert_eq!(geoms_default[i].0, geoms_zero[i].0);
        assert_rect_approx(
            &geoms_zero[i].1,
            points(geoms_default[i].1.x),
            points(geoms_default[i].1.y),
            points(geoms_default[i].1.width),
            points(geoms_default[i].1.height),
        );
    }
}

#[test]
fn make_stack_for_window_replaces_smallest_conflicting_subtree() {
    let mut tree = Node::empty();
    tree.insert_with_rect(1, None, screen());
    tree.insert_with_rect(2, Some(1), screen());
    tree.insert_with_rect(3, Some(2), screen());

    assert!(tree.make_stack_for_window(3));
    let stack = tree.stack_info(3).expect("window should be stacked");
    assert_eq!(stack.0, vec![2, 3]);
    assert_eq!(stack.1, 1);
    assert!(tree.contains(1));
}

#[test]
fn stacked_render_geometries_reveal_background_windows_to_the_right_when_right_biased() {
    let tree = Node::Stack {
        windows: vec![1, 2, 3],
        active: 0,
        previous: Box::new(Node::Leaf { window: Some(1) }),
    };
    let geoms = tree.calculate_geometries(screen());
    let g1 = geoms.iter().find(|(wid, _)| *wid == 1).unwrap().1;
    let g2 = geoms.iter().find(|(wid, _)| *wid == 2).unwrap().1;

    assert!(g2.x > g1.x);
    assert!(g2.y > g1.y);
    assert_eq!(g2.width, g1.width);
    assert_eq!(g2.height, g1.height);
}

#[test]
fn stacked_render_geometries_reveal_background_windows_to_the_left_when_left_biased() {
    let tree = Node::Stack {
        windows: vec![1, 2, 3],
        active: 2,
        previous: Box::new(Node::Leaf { window: Some(3) }),
    };
    let geoms = tree.calculate_geometries(screen());
    let g2 = geoms.iter().find(|(wid, _)| *wid == 2).unwrap().1;
    let g3 = geoms.iter().find(|(wid, _)| *wid == 3).unwrap().1;

    assert!(g2.x < g3.x);
    assert!(g2.y > g3.y);
    assert_eq!(g2.width, g3.width);
    assert_eq!(g2.height, g3.height);
}

#[test]
fn cycle_stack_stops_at_directional_boundary() {
    let mut tree = Node::empty();
    tree.insert_with_rect(1, None, screen());
    tree.insert_with_rect(2, Some(1), screen());
    tree.insert_with_rect(3, Some(2), screen());
    assert!(tree.make_stack_for_window(3));

    assert_eq!(tree.cycle_stack(3, false), Some(2));
    assert_eq!(tree.cycle_stack(2, false), None);
    assert_eq!(tree.cycle_stack(2, true), Some(3));
    assert_eq!(tree.cycle_stack(3, true), None);
}

#[test]
fn unstack_restores_previous_subtree() {
    let mut tree = Node::empty();
    tree.insert_with_rect(1, None, screen());
    tree.insert_with_rect(2, Some(1), screen());
    tree.insert_with_rect(3, Some(2), screen());
    let original = tree.clone();

    assert!(tree.make_stack_for_window(3));
    assert!(tree.unstack(3));
    assert_eq!(tree, original);
}

#[test]
fn removing_from_stack_collapses_to_leaf() {
    let mut tree = Node::empty();
    tree.insert_with_rect(1, None, screen());
    tree.insert_with_rect(2, Some(1), screen());

    assert!(tree.make_stack_for_window(2));
    assert!(tree.remove(2));

    assert!(matches!(tree, Node::Leaf { window: Some(1) }));
}
