//! Laws of making room: it moves no window to another workspace, and it ends.
use vstd::prelude::*;
use crate::seqs::{first_where, lemma_first_where_found};
use crate::wm::adjacency::rect_of;
use crate::wm::geometry::Rect;
use crate::wm::oversize::{
    area_of, best_host, can_host, is_best_host, is_oversized, is_size_of, oversized, size_of,
    traded, Round, WindowSize,
};
use crate::wm::state::{Fix, Target, Todo, Wm};
use crate::wm::tree::{exchange, exchange_all, Tree};
use crate::wm::tree_laws::{
    law_activate_keeps_windows, law_remove_takes_window, law_stack_keeps_windows,
    law_swap_exchanges, law_swap_keeps_wf,
};
use crate::wm::window::WindowId;
use crate::wm::window_laws::{all_tidy, keeps_windows};
use crate::wm::workspace::Ws;
use crate::wm::workspace_laws::{law_floated_window_stays, tidy};

verus! {

/// Whether a tree holds the windows of another one.
spec fn same_windows(a: Tree, b: Tree) -> bool {
    &&& b.valid()
    &&& forall|w: WindowId| #[trigger] b.windows().contains(w) <==> a.windows().contains(w)
}

/// The windows with tiles are windows of the tree.
pub proof fn lemma_tiles_of_tree(t: Tree, rect: Rect, inner: i64, outer: i64, is_root: bool, i: int)
    requires
        0 <= i < t.focus_geometries(rect, inner, outer, is_root).len(),
    ensures
        t.windows().contains(t.focus_geometries(rect, inner, outer, is_root)[i].0),
    decreases t,
{
    match t {
        Tree::Leaf { window: Some(w) } => {
            assert(t.windows()[0] == w);
        },
        Tree::Leaf { window: None } => {},
        Tree::Stack { windows, active, .. } => {
            assert(t.windows()[active] == windows[active]);
        },
        Tree::Internal { split, ratio, left, right } => {
            let padded = crate::wm::tree::padded_root(rect, outer, is_root);
            let parts = crate::wm::tree::gapped_parts(padded, split, ratio, inner);
            let gl = left.focus_geometries(parts.0, inner, outer, false);
            let x = t.focus_geometries(rect, inner, outer, is_root)[i].0;
            if i < gl.len() {
                lemma_tiles_of_tree(*left, parts.0, inner, outer, false, i);
                let k = choose|k: int|
                    0 <= k < left.windows().len() && left.windows()[k] == x;
                assert(t.windows()[k] == x);
            } else {
                lemma_tiles_of_tree(*right, parts.1, inner, outer, false, i - gl.len());
                let k = choose|k: int|
                    0 <= k < right.windows().len() && right.windows()[k] == x;
                assert(t.windows()[left.windows().len() + k] == x);
            }
        },
    }
}

proof fn lemma_swap_same(t: Tree, a: WindowId, b: WindowId)
    requires
        t.valid(),
        t.windows().contains(a),
        t.windows().contains(b),
    ensures
        same_windows(t, t.swapped(a, b)),
{
    law_swap_exchanges(t, a, b);
    law_swap_keeps_wf(t, a, b);
    let s = t.windows();
    let u = exchange_all(s, a, b);
    let ka = choose|k: int| 0 <= k < s.len() && s[k] == a;
    let kb = choose|k: int| 0 <= k < s.len() && s[k] == b;
    assert(u[ka] == b && u[kb] == a);
    assert forall|w: WindowId| #[trigger] u.contains(w) <==> s.contains(w) by {
        if u.contains(w) {
            let k = choose|k: int| 0 <= k < u.len() && u[k] == w;
            assert(u[k] == exchange(s[k], a, b));
        }
        if s.contains(w) && w != a && w != b {
            let k = choose|k: int| 0 <= k < s.len() && s[k] == w;
            assert(u[k] == w);
        }
    }
}

/// A window that is too large, and the one whose tile it gets, are windows of
/// the tree.
proof fn lemma_found_in_tree(
    t: Tree,
    rect: Rect,
    gaps: (i64, i64),
    sizes: Seq<WindowSize>,
    spared: Seq<WindowId>,
    settled: Seq<WindowId>,
)
    ensures
        ({
            let tiles = t.focus_geometries(rect, gaps.0, gaps.1, true);
            match oversized(tiles, sizes, spared) {
                Some(w) => {
                    &&& t.windows().contains(w)
                    &&& match best_host(tiles, size_of(sizes, w)->0, settled) {
                        Some(other) => t.windows().contains(other),
                        None => true,
                    }
                },
                None => true,
            }
        }),
{
    let tiles = t.focus_geometries(rect, gaps.0, gaps.1, true);
    lemma_first_where_found(tiles, is_oversized(sizes, spared));
    if let Some(i) = first_where(tiles, is_oversized(sizes, spared)) {
        lemma_tiles_of_tree(t, rect, gaps.0, gaps.1, true, i);
        let size = size_of(sizes, tiles[i].0)->0;
        if best_host(tiles, size, settled) is Some {
            let k = choose|k: int| is_best_host(tiles, size, settled, k);
            assert(is_best_host(tiles, size, settled, k));
            lemma_tiles_of_tree(t, rect, gaps.0, gaps.1, true, k);
        }
    }
}

proof fn lemma_traded_same(
    round: Round,
    rect: Rect,
    gaps: (i64, i64),
    sizes: Seq<WindowSize>,
    steps: nat,
)
    requires
        round.tree.valid(),
    ensures
        same_windows(round.tree, traded(round, rect, gaps, sizes, steps).tree),
    decreases steps,
{
    let tiles = round.tree.focus_geometries(rect, gaps.0, gaps.1, true);
    lemma_found_in_tree(
        round.tree,
        rect,
        gaps,
        sizes,
        round.settled + round.stuck,
        round.settled,
    );
    if let Some(w) = oversized(tiles, sizes, round.settled + round.stuck) {
        if steps > 0 {
            match best_host(tiles, size_of(sizes, w)->0, round.settled) {
                Some(other) => {
                    lemma_swap_same(round.tree, w, other);
                    let next = Round {
                        tree: round.tree.swapped(w, other),
                        settled: round.settled.push(w),
                        traded: true,
                        ..round
                    };
                    lemma_traded_same(next, rect, gaps, sizes, (steps - 1) as nat);
                    let done = traded(round, rect, gaps, sizes, steps).tree;
                    assert(done == traded(next, rect, gaps, sizes, (steps - 1) as nat).tree);
                    assert forall|x: WindowId| #[trigger] done.windows().contains(x)
                        <==> round.tree.windows().contains(x) by {
                        assert(next.tree.windows().contains(x)
                            <==> round.tree.windows().contains(x));
                    }
                },
                None => {
                    let next = Round { stuck: round.stuck.push(w), ..round };
                    lemma_traded_same(next, rect, gaps, sizes, (steps - 1) as nat);
                },
            }
        }
    }
}

proof fn lemma_stacked_same(t: Tree, w: WindowId)
    requires
        t.valid(),
    ensures
        same_windows(t, t.stacked(w).activated(w)),
{
    law_stack_keeps_windows(t, w);
    law_activate_keeps_windows(t.stacked(w), w);
}

/// Another tree with the same windows leaves all windows where they are.
proof fn lemma_with_tree(wm: Wm, ws_idx: usize, tree: Tree)
    requires
        ws_idx < wm.workspaces.len(),
        all_tidy(wm.workspaces),
        same_windows(wm.workspaces[ws_idx as int].tree, tree),
    ensures
        keeps_windows(wm.workspaces, wm.with_tree(ws_idx, tree).workspaces),
        all_tidy(wm.with_tree(ws_idx, tree).workspaces),
{
    let was = wm.workspaces;
    let now = wm.with_tree(ws_idx, tree).workspaces;
    let ws = was[ws_idx as int];
    assert(now == was.update(ws_idx as int, Ws { tree, ..ws }));
    assert forall|i: int| 0 <= i < now.len() implies tidy(#[trigger] now[i]) by {
        assert(tidy(was[i]));
        if i == ws_idx {
            assert forall|w: WindowId| !(#[trigger] now[i].tree.windows().contains(w)
                && now[i].floats(w)) by {
                assert(tree.windows().contains(w) <==> ws.tree.windows().contains(w));
                assert(!(ws.tree.windows().contains(w) && ws.floats(w)));
            }
        } else {
            assert(now[i] == was[i]);
        }
    }
    assert forall|i: int, w: WindowId| 0 <= i < was.len() implies (#[trigger] now[i].holds(w)
        <==> was[i].holds(w)) by {
        if i == ws_idx {
            assert(tree.windows().contains(w) <==> ws.tree.windows().contains(w));
        }
    }
}

proof fn lemma_itself(s: Seq<Ws>)
    ensures
        keeps_windows(s, s),
{
}

/// Making room on the workspaces that monitors show moves no window to
/// another workspace. A window that floats stays so, and one that is tiled
/// comes to float only where it does not fit and no places are traded.
pub proof fn law_making_room_moves_no_window(wm: Wm, job: Fix, sizes: Seq<WindowSize>)
    requires
        all_tidy(wm.workspaces),
        job.todo.len() > 0 ==> job.todo[0] < wm.workspaces.len(),
    ensures
        ({
            let was = wm.workspaces;
            let now = wm.fix_stepped(job, sizes).workspaces;
            &&& now.len() == was.len()
            &&& all_tidy(now)
            &&& forall|i: int, w: WindowId|
                0 <= i < was.len() ==> (#[trigger] now[i].holds(w) <==> was[i].holds(w))
            &&& forall|i: int, w: WindowId|
                0 <= i < was.len() ==> (#[trigger] now[i].floats(w) <==> was[i].floats(w) || (
                wm.unfit(job, sizes) == Some(w) && i == job.todo[0]))
        }),
{
    if job.todo.len() > 0 {
        let ws_idx = job.todo[0];
        let tree = wm.workspaces[ws_idx as int].tree;
        assert(tidy(wm.workspaces[ws_idx as int]));
        lemma_traded_same(
            Round { tree, settled: job.settled, stuck: seq![], traded: false },
            wm.screen_of(ws_idx),
            wm.gaps_of(ws_idx),
            sizes,
            tree.windows().len(),
        );
        lemma_with_tree(wm, ws_idx, wm.round_of(ws_idx, sizes, job.settled).tree);
        if let Some(w) = wm.unfit(job, sizes) {
            let was = wm.workspaces;
            let now = wm.fix_stepped(job, sizes).workspaces;
            let ws = was[ws_idx as int];
            let spot = wm.float_spot(ws_idx, size_of(sizes, w)->0);
            lemma_unfit_is_tiled(wm, job, sizes);
            law_floated_window_stays(ws, w, spot);
            assert(now == was.update(ws_idx as int, ws.floated(w, spot)));
            assert forall|i: int| 0 <= i < now.len() implies tidy(#[trigger] now[i]) by {
                assert(tidy(was[i]));
            }
        }
    }
}

/// A window that is to float is tiled, and was measured.
proof fn lemma_unfit_is_tiled(wm: Wm, job: Fix, sizes: Seq<WindowSize>)
    ensures
        wm.unfit(job, sizes) matches Some(w) ==> {
            &&& wm.workspaces[job.todo[0] as int].tree.windows().contains(w)
            &&& size_of(sizes, w) is Some
            &&& size_of(sizes, w)->0.id == w
        },
{
    let ws_idx = job.todo[0];
    let rect = wm.screen_of(ws_idx);
    let tree = wm.workspaces[ws_idx as int].tree;
    lemma_found_in_tree(tree, rect, wm.gaps_of(ws_idx), sizes, seq![], seq![]);
    lemma_first_where_found(wm.focus_tiles(ws_idx, rect), is_oversized(sizes, seq![]));
    if let Some(w) = wm.unfit(job, sizes) {
        lemma_first_where_found(sizes, is_size_of(w));
    }
}

/// A window that is too large where no places can be traded any more floats,
/// and is tiled no more, unless it has the workspace for itself.
pub proof fn law_window_without_room_floats(
    wm: Wm,
    job: Fix,
    sizes: Seq<WindowSize>,
    w: WindowId,
)
    requires
        all_tidy(wm.workspaces),
        job.todo.len() > 0,
        job.todo[0] < wm.workspaces.len(),
        !job.floating,
        !wm.round_of(job.todo[0], sizes, job.settled).traded,
        ({
            let tiles = wm.focus_tiles(job.todo[0], wm.screen_of(job.todo[0]));
            tiles.len() > 1 && oversized(tiles, sizes, seq![]) == Some(w)
        }),
    ensures
        ({
            let next = Fix { floating: true, ..job };
            let ws = wm.fix_stepped(next, sizes).workspaces[job.todo[0] as int];
            &&& wm.fix_stepped(job, sizes) == wm.later(Todo::FixVisible(next))
            &&& ws.floats(w)
            &&& !ws.tree.windows().contains(w)
        }),
{
    let next = Fix { floating: true, ..job };
    let ws_idx = job.todo[0];
    let ws = wm.workspaces[ws_idx as int];
    assert(tidy(ws));
    assert(wm.unfit(next, sizes) == Some(w));
    lemma_unfit_is_tiled(wm, next, sizes);
    law_floated_window_stays(ws, w, wm.float_spot(ws_idx, size_of(sizes, w)->0));
}

/// Whether a tile has room for a window other than its own.
pub open spec fn has_host(tiles: Seq<(WindowId, Rect)>, size: WindowSize) -> bool {
    exists|i: int| 0 <= i < tiles.len() && #[trigger] can_host(tiles[i], size, seq![])
}

proof fn lemma_no_trade(
    round: Round,
    rect: Rect,
    gaps: (i64, i64),
    sizes: Seq<WindowSize>,
    steps: nat,
)
    requires
        !round.traded,
        ({
            let tiles = round.tree.focus_geometries(rect, gaps.0, gaps.1, true);
            forall|i: int|
                0 <= i < tiles.len() && is_oversized(sizes, seq![])(#[trigger] tiles[i])
                    ==> !has_host(tiles, size_of(sizes, tiles[i].0)->0)
        }),
    ensures
        !traded(round, rect, gaps, sizes, steps).traded,
    decreases steps,
{
    let tiles = round.tree.focus_geometries(rect, gaps.0, gaps.1, true);
    let spared = round.settled + round.stuck;
    lemma_first_where_found(tiles, is_oversized(sizes, spared));
    if let Some(i) = first_where(tiles, is_oversized(sizes, spared)) {
        let size = size_of(sizes, tiles[i].0)->0;
        assert(is_oversized(sizes, seq![])(tiles[i]));
        if best_host(tiles, size, round.settled) is Some {
            let k = choose|k: int| is_best_host(tiles, size, round.settled, k);
            assert(is_best_host(tiles, size, round.settled, k));
            assert(can_host(tiles[k], size, seq![]));
        }
        if steps > 0 {
            lemma_no_trade(
                Round { stuck: round.stuck.push(tiles[i].0), ..round },
                rect,
                gaps,
                sizes,
                (steps - 1) as nat,
            );
        }
    }
}

/// A window that no other tile has room for floats, and is tiled no more, if
/// the others that are too large have no room elsewhere either; the first of
/// them floats first.
pub proof fn law_window_that_fits_no_tile_floats(
    wm: Wm,
    job: Fix,
    sizes: Seq<WindowSize>,
    w: WindowId,
)
    requires
        all_tidy(wm.workspaces),
        job.todo.len() > 0,
        job.todo[0] < wm.workspaces.len(),
        !job.floating,
        ({
            let tiles = wm.focus_tiles(job.todo[0], wm.screen_of(job.todo[0]));
            &&& tiles.len() > 1
            &&& oversized(tiles, sizes, seq![]) == Some(w)
            &&& forall|i: int|
                0 <= i < tiles.len() && is_oversized(sizes, seq![])(#[trigger] tiles[i])
                    ==> !has_host(tiles, size_of(sizes, tiles[i].0)->0)
        }),
    ensures
        ({
            let next = Fix { floating: true, ..job };
            let ws = wm.fix_stepped(next, sizes).workspaces[job.todo[0] as int];
            &&& wm.fix_stepped(job, sizes) == wm.later(Todo::FixVisible(next))
            &&& ws.floats(w)
            &&& !ws.tree.windows().contains(w)
        }),
{
    let ws_idx = job.todo[0];
    let tree = wm.workspaces[ws_idx as int].tree;
    lemma_no_trade(
        Round { tree, settled: job.settled, stuck: seq![], traded: false },
        wm.screen_of(ws_idx),
        wm.gaps_of(ws_idx),
        sizes,
        tree.windows().len(),
    );
    law_window_without_room_floats(wm, job, sizes, w);
}

/// Work on a workspace goes on until no window is too large for its tile, or
/// one tile is left.
pub proof fn law_no_large_window_stays_tiled(wm: Wm, job: Fix, sizes: Seq<WindowSize>)
    requires
        job.todo.len() > 0,
        wm.fix_stepped(job, sizes).agenda.last() == Todo::FixVisible(
            Fix { todo: job.todo.skip(1), settled: seq![], floating: false },
        ),
    ensures
        ({
            let tiles = wm.focus_tiles(job.todo[0], wm.screen_of(job.todo[0]));
            tiles.len() <= 1 || oversized(tiles, sizes, seq![]) is None
        }),
{
    let after = wm.fix_stepped(job, sizes);
    assert(job.todo.skip(1).len() != job.todo.len());
}

/// Making room for a window that was moved moves no window to another
/// workspace, and none from the tiles.
pub proof fn law_making_room_for_one_moves_no_window(
    wm: Wm,
    job: Target,
    sizes: Seq<WindowSize>,
)
    requires
        all_tidy(wm.workspaces),
        job.ws_idx < wm.workspaces.len(),
    ensures
        keeps_windows(wm.workspaces, wm.target_stepped(job, sizes).workspaces),
        all_tidy(wm.target_stepped(job, sizes).workspaces),
{
    lemma_itself(wm.workspaces);
    let ws_idx = job.ws_idx;
    let tree = wm.workspaces[ws_idx as int].tree;
    assert(tidy(wm.workspaces[ws_idx as int]));
    let rect = wm.screen_of(ws_idx);
    let gaps = wm.gaps_of(ws_idx);
    lemma_found_in_tree(tree, rect, gaps, sizes, job.settled, job.settled);
    let tiles = wm.focus_tiles(ws_idx, rect);
    if let Some(w) = oversized(tiles, sizes, job.settled) {
        match best_host(tiles, size_of(sizes, w)->0, job.settled) {
            Some(other) => {
                lemma_swap_same(tree, w, other);
                lemma_with_tree(wm, ws_idx, tree.swapped(w, other));
            },
            None => {
                lemma_stacked_same(tree, w);
                lemma_with_tree(wm, ws_idx, tree.stacked(w).activated(w));
            },
        }
    }
}

// --- The work ends ---

/// Whether the first of three counts that differs is smaller.
pub open spec fn is_less(a: (nat, nat, nat), b: (nat, nat, nat)) -> bool {
    a.0 < b.0 || (a.0 == b.0 && (a.1 < b.1 || (a.1 == b.1 && a.2 < b.2)))
}

/// The windows of a tree that can still be moved to a larger tile.
pub open spec fn movable(tree: Tree, settled: Seq<WindowId>) -> Set<WindowId> {
    tree.windows().to_set().difference(settled.to_set())
}

/// What is left to do: workspaces, whether places are still traded on the
/// first, and the windows that can trade places or are tiled there.
pub open spec fn work_left(wm: Wm, job: Fix) -> (nat, nat, nat) {
    let tree = wm.workspaces[job.todo[0] as int].tree;
    (
        job.todo.len(),
        if job.floating {
            0
        } else {
            1
        },
        if job.floating {
            tree.windows().len()
        } else {
            movable(tree, job.settled).len()
        },
    )
}

/// A stack takes the place of more than one slot.
proof fn lemma_stacking_joins(t: Tree, w: WindowId)
    requires
        t.wf(),
        t.can_stack(w),
    ensures
        t.stacked(w).slots() < t.slots(),
    decreases t,
{
    if let Tree::Internal { left, right, .. } = t {
        if left.windows().contains(w) && left.can_stack(w) {
            lemma_stacking_joins(*left, w);
        } else if !left.windows().contains(w) && right.can_stack(w) {
            lemma_stacking_joins(*right, w);
        }
    }
}

proof fn lemma_activated_slots(t: Tree, w: WindowId)
    ensures
        t.activated(w).slots() == t.slots(),
    decreases t,
{
    if let Tree::Internal { left, right, .. } = t {
        lemma_activated_slots(*left, w);
        lemma_activated_slots(*right, w);
    }
}

proof fn lemma_swapped_slots(t: Tree, a: WindowId, b: WindowId)
    ensures
        t.swapped(a, b).slots() == t.slots(),
    decreases t,
{
    if let Tree::Internal { left, right, .. } = t {
        lemma_swapped_slots(*left, a, b);
        lemma_swapped_slots(*right, a, b);
    }
}

/// Where places were traded, a window of the tree has settled that had not.
proof fn lemma_trading_settles(
    round: Round,
    rect: Rect,
    gaps: (i64, i64),
    sizes: Seq<WindowSize>,
    steps: nat,
)
    requires
        round.tree.valid(),
    ensures
        ({
            let done = traded(round, rect, gaps, sizes, steps);
            &&& forall|x: WindowId| round.settled.contains(x) ==> #[trigger] done.settled.contains(
                x,
            )
            &&& done.traded && !round.traded ==> exists|x: WindowId| #[trigger]
                done.settled.contains(x) && !round.settled.contains(x)
                    && round.tree.windows().contains(x)
        }),
    decreases steps,
{
    let tiles = round.tree.focus_geometries(rect, gaps.0, gaps.1, true);
    let spared = round.settled + round.stuck;
    lemma_found_in_tree(round.tree, rect, gaps, sizes, spared, round.settled);
    lemma_first_where_found(tiles, is_oversized(sizes, spared));
    if let Some(w) = oversized(tiles, sizes, spared) {
        if steps > 0 {
            let done = traded(round, rect, gaps, sizes, steps);
            match best_host(tiles, size_of(sizes, w)->0, round.settled) {
                Some(other) => {
                    lemma_swap_same(round.tree, w, other);
                    let next = Round {
                        tree: round.tree.swapped(w, other),
                        settled: round.settled.push(w),
                        traded: true,
                        ..round
                    };
                    lemma_trading_settles(next, rect, gaps, sizes, (steps - 1) as nat);
                    assert(done == traded(next, rect, gaps, sizes, (steps - 1) as nat));
                    assert forall|x: WindowId| round.settled.contains(x) implies #[trigger]
                        done.settled.contains(x) by {
                        let k = choose|k: int|
                            0 <= k < round.settled.len() && round.settled[k] == x;
                        assert(next.settled[k] == x);
                        assert(next.settled.contains(x));
                    }
                    assert(next.settled[round.settled.len() as int] == w);
                    assert(next.settled.contains(w));
                    assert(done.settled.contains(w));
                    assert(!round.settled.contains(w)) by {
                        if round.settled.contains(w) {
                            let k = choose|k: int|
                                0 <= k < round.settled.len() && round.settled[k] == w;
                            assert(spared[k] == w);
                        }
                    }
                },
                None => {
                    let next = Round { stuck: round.stuck.push(w), ..round };
                    lemma_trading_settles(next, rect, gaps, sizes, (steps - 1) as nat);
                    assert(done == traded(next, rect, gaps, sizes, (steps - 1) as nat));
                },
            }
        }
    }
}

/// Settling a window more leaves fewer that can be moved.
proof fn lemma_fewer_movable(
    a: Tree,
    settled: Seq<WindowId>,
    b: Tree,
    more: Seq<WindowId>,
    x: WindowId,
)
    requires
        same_windows(a, b),
        forall|y: WindowId| settled.contains(y) ==> #[trigger] more.contains(y),
        more.contains(x),
        !settled.contains(x),
        a.windows().contains(x),
    ensures
        movable(b, more).len() < movable(a, settled).len(),
{
    let before = movable(a, settled);
    let after = movable(b, more);
    vstd::seq_lib::seq_to_set_is_finite(a.windows());
    assert(before.finite());
    assert(before.contains(x));
    assert(after.subset_of(before.remove(x))) by {
        assert forall|y: WindowId| #[trigger] after.contains(y) implies before.remove(x).contains(
            y,
        ) by {
            assert(b.windows().contains(y));
            assert(a.windows().contains(y));
            assert(!more.contains(y));
        }
    }
    vstd::set_lib::lemma_len_subset(after, before.remove(x));
}

/// Each step of making room leaves less to do, so the work ends, whatever the
/// windows measure.
pub proof fn law_making_room_ends(wm: Wm, job: Fix, sizes: Seq<WindowSize>)
    requires
        all_tidy(wm.workspaces),
        job.todo.len() > 0 ==> job.todo[0] < wm.workspaces.len(),
    ensures
        job.todo.len() == 0 ==> wm.fix_stepped(job, sizes).agenda == wm.agenda,
        job.todo.len() > 0 ==> {
            let after = wm.fix_stepped(job, sizes);
            &&& after.agenda.len() > 0
            &&& after.agenda.drop_last() == wm.agenda
            &&& match after.agenda.last() {
                Todo::FixVisible(next) => is_less(work_left(after, next), work_left(wm, job)),
                _ => false,
            }
        },
{
    if job.todo.len() > 0 {
        let ws_idx = job.todo[0];
        let ws = wm.workspaces[ws_idx as int];
        let tree = ws.tree;
        assert(tidy(ws));
        let after = wm.fix_stepped(job, sizes);
        let round = wm.round_of(ws_idx, sizes, job.settled);
        let start = Round { tree, settled: job.settled, stuck: seq![], traded: false };
        let rect = wm.screen_of(ws_idx);
        let gaps = wm.gaps_of(ws_idx);
        let steps = tree.windows().len();
        let tiles = wm.focus_tiles(ws_idx, rect);
        if !job.floating && round.traded {
            lemma_traded_same(start, rect, gaps, sizes, steps);
            lemma_trading_settles(start, rect, gaps, sizes, steps);
            let x = choose|x: WindowId| #[trigger]
                round.settled.contains(x) && !job.settled.contains(x)
                    && tree.windows().contains(x);
            lemma_fewer_movable(tree, job.settled, round.tree, round.settled, x);
            let next = Fix { settled: round.settled, ..job };
            assert(after.agenda =~= wm.agenda.push(Todo::FixVisible(next)));
            assert(after.agenda.drop_last() =~= wm.agenda);
            assert(after.workspaces[ws_idx as int].tree == round.tree);
            assert(is_less(work_left(after, next), work_left(wm, job)));
        } else if !job.floating {
            let next = Fix { floating: true, ..job };
            assert(after.agenda =~= wm.agenda.push(Todo::FixVisible(next)));
            assert(after.agenda.drop_last() =~= wm.agenda);
            assert(is_less(work_left(after, next), work_left(wm, job)));
        } else {
            let moved_on = Fix { todo: job.todo.skip(1), settled: seq![], floating: false };
            match wm.unfit(job, sizes) {
                Some(w) => {
                    lemma_unfit_is_tiled(wm, job, sizes);
                    law_remove_takes_window(tree, w);
                    assert(after.workspaces[ws_idx as int].tree == tree.removed(w));
                    assert(after.agenda =~= wm.agenda.push(Todo::FixVisible(job)));
                    assert(after.agenda.drop_last() =~= wm.agenda);
                    assert(is_less(work_left(after, job), work_left(wm, job)));
                },
                None => {
                    assert(after.agenda =~= wm.agenda.push(Todo::FixVisible(moved_on)));
                    assert(after.agenda.drop_last() =~= wm.agenda);
                    assert(is_less(work_left(after, moved_on), work_left(wm, job)));
                },
            }
        }
    }
}

/// What is left to do on a workspace into which a window was moved.
pub open spec fn target_work_left(wm: Wm, job: Target) -> nat {
    let tree = wm.workspaces[job.ws_idx as int].tree;
    movable(tree, job.settled).len() + tree.slots()
}

/// Each step of making room for a window that was moved leaves less to do, so
/// that work ends too.
pub proof fn law_making_room_for_one_ends(wm: Wm, job: Target, sizes: Seq<WindowSize>)
    requires
        all_tidy(wm.workspaces),
        job.ws_idx < wm.workspaces.len(),
    ensures
        ({
            let after = wm.target_stepped(job, sizes);
            ||| after.agenda == wm.agenda
            ||| after.agenda.len() > 0 && after.agenda.drop_last() == wm.agenda && match after.agenda.last() {
                Todo::FixTarget(next) => next.ws_idx == job.ws_idx && target_work_left(after, next)
                    < target_work_left(wm, job),
                _ => false,
            }
        }),
{
    let ws_idx = job.ws_idx;
    let tree = wm.workspaces[ws_idx as int].tree;
    assert(tidy(wm.workspaces[ws_idx as int]));
    let rect = wm.screen_of(ws_idx);
    let gaps = wm.gaps_of(ws_idx);
    let after = wm.target_stepped(job, sizes);
    let tiles = wm.focus_tiles(ws_idx, rect);
    lemma_found_in_tree(tree, rect, gaps, sizes, job.settled, job.settled);
    lemma_first_where_found(tiles, is_oversized(sizes, job.settled));
    if wm.showing(ws_idx) is None || (!job.checked && wm.fits(job, sizes)) {
        assert(after == wm);
    } else if let Some(w) = oversized(tiles, sizes, job.settled) {
        match best_host(tiles, size_of(sizes, w)->0, job.settled) {
            Some(other) => {
                lemma_swap_same(tree, w, other);
                lemma_swapped_slots(tree, w, other);
                let more = job.settled.push(w);
                assert(more[job.settled.len() as int] == w);
                assert forall|y: WindowId| job.settled.contains(y) implies #[trigger]
                    more.contains(y) by {
                    let k = choose|k: int| 0 <= k < job.settled.len() && job.settled[k] == y;
                    assert(more[k] == y);
                }
                lemma_fewer_movable(tree, job.settled, tree.swapped(w, other), more, w);
                let next = Target { checked: true, settled: more, ..job };
                assert(after.workspaces[ws_idx as int].tree == tree.swapped(w, other));
                assert(after.agenda =~= wm.agenda.push(Todo::FixTarget(next)));
                assert(after.agenda.drop_last() =~= wm.agenda);
                assert(target_work_left(after, next) < target_work_left(wm, job));
            },
            None => {
                if tree.can_stack(w) {
                    lemma_stacked_same(tree, w);
                    lemma_stacking_joins(tree, w);
                    lemma_activated_slots(tree.stacked(w), w);
                    let now = tree.stacked(w).activated(w);
                    let next = Target { checked: true, ..job };
                    assert(movable(now, job.settled) =~= movable(tree, job.settled)) by {
                        assert forall|y: WindowId| now.windows().contains(y)
                            <==> #[trigger] tree.windows().contains(y) by {}
                    }
                    assert(after.workspaces[ws_idx as int].tree == now);
                    assert(after.agenda =~= wm.agenda.push(Todo::FixTarget(next)));
                    assert(after.agenda.drop_last() =~= wm.agenda);
                    assert(target_work_left(after, next) < target_work_left(wm, job));
                }
            },
        }
    }
}

proof fn lemma_round_complete(
    round: Round,
    rect: Rect,
    gaps: (i64, i64),
    sizes: Seq<WindowSize>,
    steps: nat,
)
    requires
        round.tree.valid(),
        movable(round.tree, round.settled + round.stuck).len() <= steps,
    ensures
        ({
            let done = traded(round, rect, gaps, sizes, steps);
            oversized(
                done.tree.focus_geometries(rect, gaps.0, gaps.1, true),
                sizes,
                done.settled + done.stuck,
            ) is None
        }),
    decreases steps,
{
    let tiles = round.tree.focus_geometries(rect, gaps.0, gaps.1, true);
    let spared = round.settled + round.stuck;
    lemma_found_in_tree(round.tree, rect, gaps, sizes, spared, round.settled);
    lemma_first_where_found(tiles, is_oversized(sizes, spared));
    if let Some(w) = oversized(tiles, sizes, spared) {
        let next = match best_host(tiles, size_of(sizes, w)->0, round.settled) {
            Some(other) => {
                lemma_swap_same(round.tree, w, other);
                Round {
                    tree: round.tree.swapped(w, other),
                    settled: round.settled.push(w),
                    traded: true,
                    ..round
                }
            },
            None => Round { stuck: round.stuck.push(w), ..round },
        };
        let more = next.settled + next.stuck;
        assert(!spared.contains(w));
        assert(more.contains(w)) by {
            if next.settled.len() > round.settled.len() {
                assert(more[round.settled.len() as int] == w);
            } else {
                assert(more[more.len() - 1] == w);
            }
        }
        assert forall|y: WindowId| spared.contains(y) implies #[trigger] more.contains(y) by {
            let k = choose|k: int| 0 <= k < spared.len() && spared[k] == y;
            if next.settled.len() > round.settled.len() && k >= round.settled.len() {
                assert(more[k + 1] == y);
            } else {
                assert(more[k] == y);
            }
        }
        lemma_fewer_movable(round.tree, spared, next.tree, more, w);
        lemma_round_complete(next, rect, gaps, sizes, (steps - 1) as nat);
    }
}

/// A round of trading places goes on until every window that is too large has
/// been tried.
pub proof fn law_every_large_window_is_tried(
    wm: Wm,
    ws_idx: usize,
    sizes: Seq<WindowSize>,
    settled: Seq<WindowId>,
)
    requires
        wm.workspaces[ws_idx as int].tree.valid(),
    ensures
        ({
            let round = wm.round_of(ws_idx, sizes, settled);
            let gaps = wm.gaps_of(ws_idx);
            oversized(
                round.tree.focus_geometries(wm.screen_of(ws_idx), gaps.0, gaps.1, true),
                sizes,
                round.settled + round.stuck,
            ) is None
        }),
{
    let tree = wm.workspaces[ws_idx as int].tree;
    let start = Round { tree, settled, stuck: seq![], traded: false };
    let all = tree.windows().to_set();
    vstd::seq_lib::seq_to_set_is_finite(tree.windows());
    tree.windows().lemma_cardinality_of_set();
    vstd::set_lib::lemma_len_subset(movable(tree, start.settled + start.stuck), all);
    lemma_round_complete(
        start,
        wm.screen_of(ws_idx),
        wm.gaps_of(ws_idx),
        sizes,
        tree.windows().len(),
    );
}

// --- Which window is too large, and which tile has room ---

/// The window for which room is made is that of the first tile that its measured size
/// exceeds by more than a point in width or in height, but for windows that are spared.
pub proof fn law_first_large_window_is_found(
    tiles: Seq<(WindowId, Rect)>,
    sizes: Seq<WindowSize>,
    spared: Seq<WindowId>,
)
    ensures
        match oversized(tiles, sizes, spared) {
            Some(w) => exists|i: int|
                0 <= i < tiles.len() && (#[trigger] tiles[i]).0 == w && is_too_large(
                    tiles[i],
                    sizes,
                ) && !spared.contains(w) && forall|j: int|
                    0 <= j < i ==> spared.contains((#[trigger] tiles[j]).0) || !is_too_large(
                        tiles[j],
                        sizes,
                    ),
            None => forall|j: int|
                0 <= j < tiles.len() ==> spared.contains((#[trigger] tiles[j]).0)
                    || !is_too_large(tiles[j], sizes),
        },
{
    let p = is_oversized(sizes, spared);
    lemma_first_where_found(tiles, p);
    assert forall|j: int| 0 <= j < tiles.len() implies p(#[trigger] tiles[j]) == (!spared.contains(
        tiles[j].0,
    ) && is_too_large(tiles[j], sizes)) by {
        let id = tiles[j].0;
        let q = is_size_of(id);
        lemma_first_where_found(sizes, q);
        if let Some(k) = first_where(sizes, q) {
            assert(q(sizes[k]));
            assert(is_first_size(sizes, id, k));
            assert forall|m: int| is_first_size(sizes, id, m) implies m == k by {
                if m < k {
                    assert(!q(sizes[m]));
                }
            }
        } else {
            assert forall|m: int| !is_first_size(sizes, id, m) by {
                if 0 <= m < sizes.len() {
                    assert(!q(sizes[m]));
                }
            }
        }
    }
    if let Some(i) = first_where(tiles, p) {
        assert(p(tiles[i]));
        assert(tiles[i].0 == oversized(tiles, sizes, spared)->0);
    }
}

/// Whether a measured size is the first one of a window.
pub open spec fn is_first_size(sizes: Seq<WindowSize>, id: WindowId, k: int) -> bool {
    &&& 0 <= k < sizes.len()
    &&& sizes[k].id == id
    &&& forall|j: int| 0 <= j < k ==> (#[trigger] sizes[j]).id != id
}

/// Whether the measured size of a window exceeds its tile by more than a point.
pub open spec fn is_too_large(tile: (WindowId, Rect), sizes: Seq<WindowSize>) -> bool {
    exists|k: int| #[trigger]
        is_first_size(sizes, tile.0, k) && (sizes[k].width - tile.1.width > 1000 || sizes[k].height
            - tile.1.height > 1000)
}

/// Whether a tile has room for a window but for a point, and is not its own nor that of a
/// settled window.
pub open spec fn has_room(
    tile: (WindowId, Rect),
    size: WindowSize,
    settled: Seq<WindowId>,
) -> bool {
    &&& tile.0 != size.id
    &&& !settled.contains(tile.0)
    &&& size.width - tile.1.width <= 1000
    &&& size.height - tile.1.height <= 1000
}

/// A window that is too large gets the tile with the largest area of those that have room
/// for it, and of several the last; it gets none only if no tile has room.
pub proof fn law_largest_tile_is_taken(
    tiles: Seq<(WindowId, Rect)>,
    size: WindowSize,
    settled: Seq<WindowId>,
)
    ensures
        match best_host(tiles, size, settled) {
            Some(w) => exists|i: int|
                0 <= i < tiles.len() && (#[trigger] tiles[i]).0 == w && has_room(
                    tiles[i],
                    size,
                    settled,
                ) && forall|j: int|
                    0 <= j < tiles.len() && has_room(#[trigger] tiles[j], size, settled) ==> {
                        let mine = tiles[i].1.width * tiles[i].1.height;
                        let other = tiles[j].1.width * tiles[j].1.height;
                        other <= mine && (j > i ==> other < mine)
                    },
            None => forall|j: int|
                0 <= j < tiles.len() ==> !has_room(#[trigger] tiles[j], size, settled),
        },
{
    assert forall|j: int| 0 <= j < tiles.len() implies has_room(#[trigger] tiles[j], size, settled)
        == can_host(tiles[j], size, settled) by {}
    if exists|i: int| is_best_host(tiles, size, settled, i) {
        let i = choose|i: int| is_best_host(tiles, size, settled, i);
        assert(is_best_host(tiles, size, settled, i));
        assert(tiles[i].0 == best_host(tiles, size, settled)->0);
        assert forall|j: int|
            0 <= j < tiles.len() && has_room(#[trigger] tiles[j], size, settled) implies tiles[j].1.width
            * tiles[j].1.height <= tiles[i].1.width * tiles[i].1.height && (j > i
            ==> tiles[j].1.width * tiles[j].1.height < tiles[i].1.width * tiles[i].1.height) by {
            assert(can_host(tiles[j], size, settled));
        }
    } else {
        assert forall|j: int| 0 <= j < tiles.len() implies !has_room(
            #[trigger] tiles[j],
            size,
            settled,
        ) by {
            if can_host(tiles[j], size, settled) {
                lemma_best_exists(tiles, size, settled, tiles.len() as int, j);
                let i = choose|i: int| is_best_among(tiles, size, settled, tiles.len() as int, i);
                assert(is_best_host(tiles, size, settled, i));
            }
        }
    }
}

spec fn is_best_among(
    tiles: Seq<(WindowId, Rect)>,
    size: WindowSize,
    settled: Seq<WindowId>,
    n: int,
    i: int,
) -> bool {
    &&& 0 <= i < n
    &&& can_host(tiles[i], size, settled)
    &&& forall|j: int|
        0 <= j < n && #[trigger] can_host(tiles[j], size, settled) ==> area_of(tiles[j])
            <= area_of(tiles[i]) && (j > i ==> area_of(tiles[j]) < area_of(tiles[i]))
}

proof fn lemma_best_exists(
    tiles: Seq<(WindowId, Rect)>,
    size: WindowSize,
    settled: Seq<WindowId>,
    n: int,
    j: int,
)
    requires
        0 <= j < n <= tiles.len(),
        can_host(tiles[j], size, settled),
    ensures
        exists|i: int| is_best_among(tiles, size, settled, n, i),
    decreases n,
{
    let last = n - 1;
    if exists|k: int| 0 <= k < last && can_host(#[trigger] tiles[k], size, settled) {
        let k = choose|k: int| 0 <= k < last && can_host(#[trigger] tiles[k], size, settled);
        lemma_best_exists(tiles, size, settled, last, k);
        let i = choose|i: int| is_best_among(tiles, size, settled, last, i);
        if can_host(tiles[last], size, settled) && area_of(tiles[last]) >= area_of(tiles[i]) {
            assert(is_best_among(tiles, size, settled, n, last));
        } else {
            assert(is_best_among(tiles, size, settled, n, i));
        }
    } else {
        assert(j == last);
        assert(is_best_among(tiles, size, settled, n, last));
    }
}

/// A window that no tile has room for floats at the corner of its tile with the size that
/// it has.
pub proof fn law_window_floats_out_of_its_tile(wm: Wm, ws_idx: usize, size: WindowSize)
    requires
        ws_idx < wm.workspaces.len(),
        rect_of(wm.focus_tiles(ws_idx, wm.screen_of(ws_idx)), size.id) is Some,
    ensures
        ({
            let after = wm.floated_out(ws_idx, size);
            let tile = rect_of(wm.focus_tiles(ws_idx, wm.screen_of(ws_idx)), size.id)->0;
            let was = wm.workspaces[ws_idx as int].floating;
            let now = after.workspaces[ws_idx as int].floating;
            &&& now.len() == was.len() + 1
            &&& forall|k: int| 0 <= k < was.len() ==> #[trigger] now[k] == was[k]
            &&& now.last().id == size.id
            &&& now.last().geometry.x == tile.x
            &&& now.last().geometry.y == tile.y
            &&& now.last().geometry.width == size.width
            &&& now.last().geometry.height == size.height
        }),
{
}

} // verus!
