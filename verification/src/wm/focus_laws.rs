//! Where the focus goes.
use vstd::prelude::*;
use crate::seqs::{first_where, is_first_where, lemma_first_where, lemma_first_where_found};
use crate::wm::adjacency::{edge_key, is_nearest_to_edge, nearest, neighbours, rect_of};
use crate::wm::adjacency_laws::law_neighbours_lie_in_direction;
use crate::wm::effects::{warp_to, Effect};
use crate::wm::focus::{is_focus_of, is_memory_of, remembered_target, with_recent};
use crate::wm::geometry::{Direction, Rect};
use crate::wm::layout_laws::sane;
use crate::wm::moving_laws::keeps_off_edge;
use crate::wm::oversize_laws::lemma_tiles_of_tree;
use crate::wm::pointer_laws::{is_first_least, lemma_first_least};
use crate::wm::stack_laws::law_cycle_shows_next_member;
use crate::wm::state::{FocusMemory, RecentFocus, Wm};
use crate::wm::state_laws::{law_recent_focus_stays_small, seated};
use crate::wm::tree_laws::law_outside_stack;
use crate::wm::window::{has_id, window_of, WindowId};
use crate::wm::workspace::{float_ids, holds_window, is_float_of, Ws};
use crate::wm::workspace_laws::in_one_place;

verus! {

// --- Getting the focus ---

/// The first workspace that holds a window is its home.
pub proof fn lemma_home(wm: Wm, id: WindowId, i: int)
    requires
        in_one_place(wm.workspaces),
        0 <= i < wm.workspaces.len() <= usize::MAX,
        wm.workspaces[i].holds(id),
    ensures
        wm.home_of(id) == Some(i as usize),
{
    let p = holds_window(id);
    assert forall|j: int| 0 <= j < i implies !p(#[trigger] wm.workspaces[j]) by {
        assert(!(wm.workspaces[j].holds(id) && wm.workspaces[i].holds(id)));
    }
    assert(is_first_where(wm.workspaces, p, i));
    lemma_first_where(wm.workspaces, p, i);
}

/// A window that gets the focus has it in the workspace that holds it and is the
/// latest there; a floating one comes on top of the others, and a stack shows it.
/// Other workspaces and the monitors stay. With `activate` the window and its
/// application come to the front.
pub proof fn law_focused_window_has_focus(wm: Wm, id: WindowId, activate: bool, i: int)
    requires
        in_one_place(wm.workspaces),
        0 <= i < wm.workspaces.len() <= usize::MAX,
        wm.workspaces[i].holds(id),
    ensures
        ({
            let after = wm.focused_on(id, activate);
            let was = wm.workspaces[i];
            let now = after.workspaces[i];
            &&& after.monitors == wm.monitors
            &&& after.focused_monitor == wm.focused_monitor
            &&& after.specials == wm.specials
            &&& after.mouse_follows_focus == wm.mouse_follows_focus
            &&& after.registry == wm.registry
            &&& after.now == wm.now
            &&& after.workspaces.len() == wm.workspaces.len()
            &&& forall|j: int|
                0 <= j < wm.workspaces.len() && j != i ==> #[trigger] after.workspaces[j]
                    == wm.workspaces[j]
            &&& now.focused == Some(id)
            &&& now.focus_history.len() > 0 && now.focus_history.last() == id
            &&& now.id == was.id
            &&& was.floats(id) ==> now.floating.len() > 0 && now.floating.last().id == id
            &&& !was.floats(id) ==> now.floating == was.floating
            &&& now.tree == was.tree.activated(id)
            &&& activate ==> wm.effects.len() < after.effects.len()
                && after.effects[wm.effects.len() as int] == (Effect::Activate {
                id,
                pid: match window_of(wm.registry, id) {
                    Some(w) => Some(w.app_pid),
                    None => None,
                },
            })
        }),
{
    reveal(Wm::focused_on);
    lemma_home(wm, id, i);
    let was = wm.workspaces[i];
    lemma_first_where_found(was.floating, is_float_of(id));
    if was.floats(id) {
        let k = choose|k: int| 0 <= k < float_ids(was.floating).len() && float_ids(
            was.floating,
        )[k] == id;
        assert(is_float_of(id)(was.floating[k]));
    } else {
        if let Some(k) = first_where(was.floating, is_float_of(id)) {
            assert(float_ids(was.floating)[k] == id);
        }
    }
}

/// What is known of a window by its number: nothing, if none has this number, and
/// else the first entry with it.
pub proof fn law_window_is_found_by_number(wm: Wm, id: WindowId, k: int)
    ensures
        (forall|j: int| 0 <= j < wm.registry.len() ==> (#[trigger] wm.registry[j]).id != id)
            ==> window_of(wm.registry, id) is None,
        0 <= k < wm.registry.len() && wm.registry[k].id == id && (forall|j: int|
            0 <= j < k ==> (#[trigger] wm.registry[j]).id != id) ==> window_of(wm.registry, id)
            == Some(wm.registry[k]),
{
    lemma_first_where_found(wm.registry, has_id(id));
    if let Some(i) = first_where(wm.registry, has_id(id)) {
        assert(has_id(id)(wm.registry[i]));
    }
    if 0 <= k < wm.registry.len() && wm.registry[k].id == id && (forall|j: int|
        0 <= j < k ==> (#[trigger] wm.registry[j]).id != id) {
        assert(is_first_where(wm.registry, has_id(id), k));
        lemma_first_where(wm.registry, has_id(id), k);
    }
}

// --- Moving the focus ---

/// Whether an effect puts the pointer into the middle of a rectangle.
pub open spec fn warps_to_middle(e: Effect, r: Rect) -> bool {
    match e {
        Effect::Warp { x, y } => {
            &&& 0 <= (2 * r.x + r.width) - 2 * x <= 1
            &&& 0 <= (2 * r.y + r.height) - 2 * y <= 1
        },
        _ => false,
    }
}

/// The pointer is put into the middle of a rectangle.
pub proof fn law_pointer_goes_to_middle(r: Rect)
    requires
        sane(r),
    ensures
        warps_to_middle(warp_to(r), r),
{
}

/// A move of the focus is remembered: the first memory of a move from a window in a
/// direction tells where it went.
pub proof fn law_memory_is_read(
    memory: Seq<FocusMemory>,
    from: WindowId,
    direction: Direction,
    k: int,
)
    ensures
        (forall|j: int|
            0 <= j < memory.len() ==> !((#[trigger] memory[j]).from == from && memory[j].direction
                == direction)) ==> remembered_target(memory, from, direction) is None,
        0 <= k < memory.len() && memory[k].from == from && memory[k].direction == direction && (
        forall|j: int|
            0 <= j < k ==> !((#[trigger] memory[j]).from == from && memory[j].direction
                == direction)) ==> remembered_target(memory, from, direction) == Some(memory[k].to),
{
    let p = is_memory_of(from, direction);
    lemma_first_where_found(memory, p);
    if let Some(i) = first_where(memory, p) {
        assert(p(memory[i]));
    }
    if 0 <= k < memory.len() && memory[k].from == from && memory[k].direction == direction && (
    forall|j: int|
        0 <= j < k ==> !((#[trigger] memory[j]).from == from && memory[j].direction
            == direction)) {
        assert(is_first_where(memory, p, k));
        lemma_first_where(memory, p, k);
    }
}

/// From a focused window that is in no stack, keeps off the edge of the screen and
/// has neighbours in a direction, the focus goes to a neighbour: to the one to which
/// it went from there before, if it is still one, and else to the best one. The
/// pointer goes along if it is to follow, and the way back is remembered.
pub proof fn law_focus_goes_to_neighbour(wm: Wm, direction: Direction, from: WindowId)
    requires
        in_one_place(wm.workspaces),
        wm.workspaces.len() <= usize::MAX,
        wm.active_idx() < wm.workspaces.len(),
        wm.active().focused == Some(from),
        !wm.active().tree.in_stack(from),
        ({
            let tiles = wm.focus_tiles(wm.active_idx(), wm.focused_rect());
            &&& rect_of(tiles, from) is Some
            &&& keeps_off_edge(
                rect_of(tiles, from)->0,
                wm.focused_rect(),
                direction,
                wm.gap_outer + 2000,
            )
            &&& neighbours(tiles, from, direction).len() > 0
        }),
    ensures
        ({
            let after = wm.focus_moved(direction);
            let tiles = wm.focus_tiles(wm.active_idx(), wm.focused_rect());
            let all = neighbours(tiles, from, direction);
            let before = remembered_target(wm.memory, from, direction);
            let to = if before is Some && all.contains(before->0) {
                before->0
            } else {
                all[0]
            };
            &&& to != from
            &&& after.monitors == wm.monitors
            &&& after.focused_monitor == wm.focused_monitor
            &&& after.active().focused == Some(to)
            &&& forall|j: int|
                0 <= j < wm.workspaces.len() && j != wm.active_idx()
                    ==> #[trigger] after.workspaces[j] == wm.workspaces[j]
            &&& wm.effects.len() < after.effects.len()
            &&& after.effects[wm.effects.len() as int] matches Effect::Activate { id, .. } && id
                == to
            &&& wm.mouse_follows_focus && sane(rect_of(tiles, to)->0) ==> after.hovered == Some(to)
                && warps_to_middle(after.effects.last(), rect_of(tiles, to)->0)
        }),
{
    let idx = wm.active_idx();
    let ws = wm.active();
    let screen = wm.focused_rect();
    let tiles = wm.focus_tiles(idx, screen);
    let (inner, outer) = wm.gaps_of(idx);
    let all = neighbours(tiles, from, direction);
    let to = wm.focus_choice(tiles, from, direction);
    law_outside_stack(ws.tree, from);
    let n = choose|n: int| 0 <= n < all.len() && all[n] == to;
    assert(all[0] == all[0]);
    assert(all.contains(to));
    law_neighbours_lie_in_direction(tiles, from, direction, n);
    let k = choose|k: int| 0 <= k < tiles.len() && (#[trigger] tiles[k]).0 == all[n];
    lemma_tiles_of_tree(ws.tree, screen, inner, outer, true, k);
    assert(ws.holds(to));
    law_focused_window_has_focus(wm, to, true, idx as int);
    lemma_rect_exists(tiles, k);
    let given = wm.focused_on(to, true);
    let s = given.remembered(from, direction, to);
    assert(!wm.at_edge(tiles, from, direction));
    let r = rect_of(tiles, to)->0;
    if wm.mouse_follows_focus && sane(r) {
        law_pointer_goes_to_middle(r);
        let after = wm.focus_moved(direction);
        assert(after.effects == s.effects + seq![warp_to(r)]);
        assert(after.effects.last() == warp_to(r));
    }
}

/// A window of a list has a rectangle in it.
pub proof fn lemma_rect_exists(tiles: Seq<(WindowId, Rect)>, k: int)
    requires
        0 <= k < tiles.len(),
    ensures
        rect_of(tiles, tiles[k].0) is Some,
    decreases tiles.len(),
{
    if tiles[0].0 != tiles[k].0 {
        lemma_rect_exists(tiles.drop_first(), k - 1);
    }
}

/// In a stack the focus goes to the right to the member behind the one that is
/// shown and to the left to the one before it, as long as there is one.
pub proof fn law_focus_goes_through_stack(wm: Wm, direction: Direction, from: WindowId)
    requires
        in_one_place(wm.workspaces),
        wm.workspaces.len() <= usize::MAX,
        wm.active_idx() < wm.workspaces.len(),
        wm.active().focused == Some(from),
        wm.active().tree.in_stack(from),
        direction is Left || direction is Right,
        ({
            let (members, shown) = wm.active().tree.stack_of(from)->0;
            0 <= (if direction is Right {
                shown + 1
            } else {
                shown - 1
            }) < members.len()
        }),
    ensures
        ({
            let after = wm.focus_moved(direction);
            let (members, shown) = wm.active().tree.stack_of(from)->0;
            let to = members[if direction is Right {
                shown + 1
            } else {
                shown - 1
            }];
            &&& after.monitors == wm.monitors
            &&& after.focused_monitor == wm.focused_monitor
            &&& after.active().focused == Some(to)
        }),
{
    let idx = wm.active_idx();
    let ws = wm.active();
    let forward = direction is Right;
    law_cycle_shows_next_member(ws.tree, from, forward);
    let (members, shown) = ws.tree.stack_of(from)->0;
    let next = if forward {
        shown + 1
    } else {
        shown - 1
    };
    let to = members[next];
    let turned = wm.with_ws(idx, Ws { tree: ws.tree.cycled(from, forward), ..ws });
    crate::wm::tree_laws::law_cycle_keeps_windows(ws.tree, from, forward);
    lemma_member_is_window(ws.tree, from, next);
    reveal(Wm::focused_on);
    let p = holds_window(to);
    assert forall|j: int| 0 <= j < idx implies !p(#[trigger] turned.workspaces[j]) by {
        assert(!(wm.workspaces[j].holds(to) && wm.workspaces[idx as int].holds(to)));
    }
    assert(is_first_where(turned.workspaces, p, idx as int));
    lemma_first_where(turned.workspaces, p, idx as int);
    assert(turned.home_of(to) == Some(idx));
}

/// The members of a stack are windows of the tree.
proof fn lemma_member_is_window(t: crate::wm::tree::Tree, w: WindowId, k: int)
    requires
        t.in_stack(w),
        t.stack_of(w) is Some,
        ({
            let (members, _) = t.stack_of(w)->0;
            0 <= k < members.len()
        }),
    ensures
        ({
            let (members, _) = t.stack_of(w)->0;
            t.windows().contains(members[k])
        }),
    decreases t,
{
    if let crate::wm::tree::Tree::Internal { left, right, .. } = t {
        let (members, _) = t.stack_of(w)->0;
        crate::wm::tree::lemma_contains_concat(left.windows(), right.windows(), members[k]);
        if left.in_stack(w) {
            lemma_member_is_window(*left, w, k);
        } else {
            lemma_member_is_window(*right, w, k);
        }
    }
}

// --- To another monitor ---

/// Of the windows of a screen that the focus enters in a direction, it goes to the one
/// whose middle is nearest to the edge that it enters through: the leftmost when it goes
/// to the right, the rightmost when it goes to the left; and of several to the first.
pub proof fn law_focus_enters_at_edge(tiles: Seq<(WindowId, Rect)>, direction: Direction)
    requires
        tiles.len() > 0,
    ensures
        exists|i: int|
            0 <= i < tiles.len() && nearest(tiles, direction) == Some((#[trigger] tiles[i]).0)
                && forall|j: int|
                0 <= j < tiles.len() ==> {
                    let a = tiles[i].1;
                    let b = (#[trigger] tiles[j]).1;
                    match direction {
                        Direction::Right => 2 * a.x + a.width <= 2 * b.x + b.width,
                        Direction::Left => 2 * a.x + a.width >= 2 * b.x + b.width,
                        Direction::Down => 2 * a.y + a.height <= 2 * b.y + b.height,
                        Direction::Up => 2 * a.y + a.height >= 2 * b.y + b.height,
                    }
                } && forall|j: int|
                0 <= j < i ==> {
                    let a = tiles[i].1;
                    let b = (#[trigger] tiles[j]).1;
                    match direction {
                        Direction::Right | Direction::Left => 2 * a.x + a.width != 2 * b.x
                            + b.width,
                        Direction::Down | Direction::Up => 2 * a.y + a.height != 2 * b.y
                            + b.height,
                    }
                },
{
    let keys = Seq::new(tiles.len(), |i: int| edge_key(tiles[i].1, direction));
    lemma_first_least(keys);
    let m = choose|m: int| is_first_least(keys, m);
    assert forall|j: int| 0 <= j < tiles.len() implies edge_key(tiles[m].1, direction)
        <= #[trigger] edge_key(tiles[j].1, direction) by {
        assert(keys[m] <= keys[j]);
    }
    assert forall|j: int| 0 <= j < m implies edge_key(tiles[m].1, direction) < #[trigger] edge_key(
        tiles[j].1,
        direction,
    ) by {
        assert(keys[m] < keys[j]);
    }
    assert(is_nearest_to_edge(tiles, direction, m));
    let i = choose|i: int| is_nearest_to_edge(tiles, direction, i);
    assert(is_nearest_to_edge(tiles, direction, i));
    assert(nearest(tiles, direction) == Some(tiles[i].0));
    assert forall|j: int| 0 <= j < tiles.len() implies ({
        let a = tiles[i].1;
        let b = (#[trigger] tiles[j]).1;
        match direction {
            Direction::Right => 2 * a.x + a.width <= 2 * b.x + b.width,
            Direction::Left => 2 * a.x + a.width >= 2 * b.x + b.width,
            Direction::Down => 2 * a.y + a.height <= 2 * b.y + b.height,
            Direction::Up => 2 * a.y + a.height >= 2 * b.y + b.height,
        }
    }) by {
        assert(edge_key(tiles[i].1, direction) <= edge_key(tiles[j].1, direction));
    }
    assert forall|j: int| 0 <= j < i implies ({
        let a = tiles[i].1;
        let b = (#[trigger] tiles[j]).1;
        match direction {
            Direction::Right | Direction::Left => 2 * a.x + a.width != 2 * b.x + b.width,
            Direction::Down | Direction::Up => 2 * a.y + a.height != 2 * b.y + b.height,
        }
    }) by {
        assert(edge_key(tiles[i].1, direction) < edge_key(tiles[j].1, direction));
    }
}

/// From a focused window that is in no stack and touches the edge of the screen in a
/// direction, the focus goes to the monitor beside: to the next one on the right, to the
/// one before on the left, and nowhere upwards, downwards or beyond the last. There it
/// goes to the window next to the edge.
pub proof fn law_focus_crosses_edge(wm: Wm, direction: Direction, from: WindowId)
    requires
        seated(wm),
        in_one_place(wm.workspaces),
        wm.active().focused == Some(from),
        !wm.active().tree.in_stack(from),
        ({
            let tiles = wm.focus_tiles(wm.active_idx(), wm.focused_rect());
            &&& rect_of(tiles, from) is Some
            &&& !keeps_off_edge(
                rect_of(tiles, from)->0,
                wm.focused_rect(),
                direction,
                wm.gap_outer + 2000,
            )
        }),
    ensures
        ({
            let after = wm.focus_moved(direction);
            let mi = match direction {
                Direction::Right => wm.focused_monitor + 1,
                Direction::Left => wm.focused_monitor - 1,
                _ => -1,
            };
            if 0 <= mi < wm.monitors.len() {
                let idx = wm.monitors[mi].active_workspace;
                let tiles = wm.focus_tiles(idx, wm.rect_on(mi as usize));
                &&& after.focused_monitor == mi
                &&& after.monitors == wm.monitors
                &&& tiles.len() > 0 ==> after.workspaces[idx as int].focused == nearest(
                    tiles,
                    direction,
                )
                &&& tiles.len() == 0 ==> after.workspaces[idx as int].focused
                    == wm.workspaces[idx as int].focused
            } else {
                after == wm
            }
        }),
{
    law_outside_stack(wm.active().tree, from);
    let mi = match direction {
        Direction::Right => wm.focused_monitor + 1,
        Direction::Left => wm.focused_monitor - 1,
        _ => -1,
    };
    let after = wm.focus_moved(direction);
    assert(after == wm.crossed(direction));
    if 0 <= mi < wm.monitors.len() {
        let s = Wm { focused_monitor: mi as usize, ..wm };
        let idx = s.active_idx();
        assert(idx < s.workspaces.len());
        let screen = s.focused_rect();
        let tiles = s.focus_tiles(idx, screen);
        assert(screen == wm.rect_on(mi as usize));
        assert(s.gaps_of(idx) == wm.gaps_of(idx));
        let (inner, outer) = s.gaps_of(idx);
        if tiles.len() > 0 {
            law_focus_enters_at_edge(tiles, direction);
            let i = choose|i: int|
                0 <= i < tiles.len() && nearest(tiles, direction) == Some((#[trigger] tiles[i]).0);
            lemma_tiles_of_tree(s.workspaces[idx as int].tree, screen, inner, outer, true, i);
            assert(s.workspaces[idx as int].holds(tiles[i].0));
            law_focused_window_has_focus(s, tiles[i].0, true, idx as int);
        } else if let Some(w) = s.active().focused {
            lemma_focus_given_again(s, w);
        }
    }
}

/// Giving the focus to the window that has it on the active workspace leaves the focus
/// of that workspace and the monitors as they are.
proof fn lemma_focus_given_again(wm: Wm, w: WindowId)
    requires
        seated(wm),
        in_one_place(wm.workspaces),
        wm.active().focused == Some(w),
    ensures
        wm.focused_on(w, true).active().focused == Some(w),
        wm.focused_on(w, true).monitors == wm.monitors,
        wm.focused_on(w, true).focused_monitor == wm.focused_monitor,
{
    reveal(Wm::focused_on);
    let p = holds_window(w);
    lemma_first_where_found(wm.workspaces, p);
    let home = wm.focus_home(w);
    let after = wm.focused_on(w, true);
    assert(after.workspaces == wm.workspaces.update(
        home as int,
        wm.workspaces[home as int].focus_given(w),
    ));
}

// --- Times ---

/// An own change of the focus to a known window is remembered with its program for 600
/// milliseconds; of at most sixteen that are remembered.
pub proof fn law_own_focus_is_remembered(wm: Wm, id: WindowId, pid: i32)
    requires
        window_of(wm.registry, id) is Some,
        window_of(wm.registry, id)->0.app_pid == pid,
        wm.now + 600 <= u64::MAX,
        wm.recent.len() <= 16,
    ensures
        ({
            let recent = wm.marked(id).recent;
            &&& recent.contains((RecentFocus { id, pid, until: (wm.now + 600) as u64 }))
            &&& recent.len() <= 16
        }),
{
    law_recent_focus_stays_small(wm, id);
    let s = wm.recent_pruned();
    let r = RecentFocus { id, pid, until: (wm.now + 600) as u64 };
    let p = is_focus_of(id, pid);
    lemma_first_where_found(s.recent, p);
    let recent = wm.marked(id).recent;
    match first_where(s.recent, p) {
        Some(i) => {
            assert(recent[i] == r);
        },
        None => {
            assert(recent[recent.len() - 1] == r);
        },
    }
}

/// For 400 milliseconds after a switch of the workspace foreign focus is passed over, and for 200
/// after the pointer was put somewhere the mouse is not followed.
pub proof fn law_times_of_silence(wm: Wm, later: u64, pid: i32, w: Option<WindowId>, r: Rect)
    requires
        wm.now <= later,
        wm.now + 400 <= u64::MAX,
    ensures
        ({
            let quiet = Wm { now: later, ..wm.silenced() };
            &&& later < wm.now + 400 ==> quiet.app_focus_adopted(pid, w) == quiet
            &&& later >= wm.now + 400 ==> !quiet.is_silent()
        }),
        ({
            let still = Wm { now: later, ..wm.warped(r) };
            &&& later < wm.now + 200 ==> !still.mouse_is_followed()
            &&& later >= wm.now + 200 && wm.focus_follows_mouse ==> still.mouse_is_followed()
        }),
{
}

/// Of sixteen remembered focus changes the oldest is forgotten when another one comes; the others
/// stay in order. A change that is remembered already is renewed in its place.
pub proof fn law_oldest_focus_is_forgotten(recent: Seq<RecentFocus>, r: RecentFocus, k: int)
    ensures
        ({
            let now = with_recent(recent, r);
            let known = |j: int| recent[j].id == r.id && recent[j].pid == r.pid;
            &&& (forall|j: int|
                0 <= j < recent.len() ==> (#[trigger] recent[j]).id != r.id || recent[j].pid
                    != r.pid) ==> {
                &&& now.last() == r
                &&& recent.len() >= 16 ==> now.len() == recent.len() && forall|j: int|
                    0 <= j < recent.len() - 1 ==> #[trigger] now[j] == recent[j + 1]
                &&& recent.len() < 16 ==> now.len() == recent.len() + 1 && forall|j: int|
                    0 <= j < recent.len() ==> #[trigger] now[j] == recent[j]
            }
            &&& (0 <= k < recent.len() && known(k) && forall|j: int|
                0 <= j < k ==> (#[trigger] recent[j]).id != r.id || recent[j].pid != r.pid)
                ==> now == recent.update(k, r)
        }),
{
    let p = is_focus_of(r.id, r.pid);
    lemma_first_where_found(recent, p);
    if 0 <= k < recent.len() && recent[k].id == r.id && recent[k].pid == r.pid && forall|j: int|
        0 <= j < k ==> (#[trigger] recent[j]).id != r.id || recent[j].pid != r.pid {
        assert(is_first_where(recent, p, k));
        lemma_first_where(recent, p, k);
    }
}

} // verus!
