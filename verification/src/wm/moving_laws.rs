//! What moving the focus and windows by direction does.
use vstd::prelude::*;
use crate::wm::adjacency::{neighbours, rect_of};
use crate::wm::adjacency_laws::law_neighbours_lie_in_direction;
use crate::wm::effects::Effect;
use crate::wm::focus_laws::{law_focused_window_has_focus, lemma_home};
use crate::wm::geometry::{Direction, Rect, SplitDirection};
use crate::wm::state::Wm;
use crate::wm::tree::{exchange, gapped_parts, padded_root, Tree};
use crate::wm::oversize_laws::lemma_tiles_of_tree;
use crate::wm::resize_laws::{
    is_even, law_resize_changes_own_share, law_equalize_undoes_resizing, own_share,
};
use crate::wm::tree_laws::{
    law_equalize_keeps_windows, law_outside_stack, law_promote, law_resize_keeps_windows,
    law_swap_exchanges, law_unstack_keeps_windows,
};
use crate::wm::window::WindowId;
use crate::wm::workspace::Ws;
use crate::wm::workspace_laws::{in_one_place, tidy};

verus! {

// --- What is shown ---

/// Whether every tile and every floating window of the workspaces that monitors
/// show was shown in its rectangle since some earlier state.
pub open spec fn shows_all_since(after: Wm, before: Wm) -> bool {
    &&& forall|mi: int, k: int|
        0 <= mi < after.monitors.len() && 0 <= k < after.tiles(
            after.monitors[mi].active_workspace,
            after.rect_on(mi as usize),
        ).len() ==> shown_since(
            after,
            before,
            #[trigger] after.tiles(
                after.monitors[mi].active_workspace,
                after.rect_on(mi as usize),
            )[k],
        )
    &&& forall|mi: int, k: int|
        0 <= mi < after.monitors.len() && 0 <= k
            < after.workspaces[after.monitors[mi].active_workspace as int].floating.len()
            ==> ({
            let f = #[trigger] after.workspaces[after.monitors[mi].active_workspace as int].floating[k];
            shown_since(after, before, (f.id, f.geometry))
        })
}

/// Whether a window was shown in a rectangle since some earlier state.
pub open spec fn shown_since(after: Wm, before: Wm, tile: (WindowId, Rect)) -> bool {
    exists|i: int|
        before.effects.len() <= i < after.effects.len() && #[trigger] after.effects[i]
            == (Effect::Show { id: tile.0, rect: tile.1 })
}

proof fn lemma_layout_upto(wm: Wm, n: int, mi: int)
    requires
        0 <= mi < n,
    ensures
        exists|from: int|
            0 <= from && from + wm.monitor_layout(mi).len() <= wm.layout_upto(n).len()
                && #[trigger] wm.layout_upto(n).subrange(
                from,
                from + wm.monitor_layout(mi).len(),
            ) == wm.monitor_layout(mi),
    decreases n,
{
    let part = wm.monitor_layout(mi);
    let all = wm.layout_upto(n);
    if mi == n - 1 {
        let from = wm.layout_upto(n - 1).len() as int;
        assert(all.subrange(from, from + part.len()) =~= part);
    } else {
        lemma_layout_upto(wm, n - 1, mi);
        let less = wm.layout_upto(n - 1);
        let from = choose|from: int|
            0 <= from && from + part.len() <= less.len() && #[trigger] less.subrange(
                from,
                from + part.len(),
            ) == part;
        assert(all.subrange(from, from + part.len()) =~= less.subrange(from, from + part.len()));
    }
}

/// Laying out shows every tile and every floating window of every monitor in its
/// rectangle, and moves nothing.
pub proof fn law_layout_shows_every_window(wm: Wm)
    ensures
        shows_all_since(wm.laid_out(), wm),
        wm.laid_out().workspaces == wm.workspaces,
        wm.laid_out().monitors == wm.monitors,
        wm.laid_out().focused_monitor == wm.focused_monitor,
{
    let after = wm.laid_out();
    let n = wm.monitors.len() as int;
    let done = wm.layout_upto(n);
    let old_len = wm.effects.len() as int;
    assert forall|mi: int, k: int|
        0 <= mi < after.monitors.len() && 0 <= k < after.tiles(
            after.monitors[mi].active_workspace,
            after.rect_on(mi as usize),
        ).len() implies shown_since(
        after,
        wm,
        #[trigger] after.tiles(
            after.monitors[mi].active_workspace,
            after.rect_on(mi as usize),
        )[k],
    ) by {
        let tiles = after.tiles(after.monitors[mi].active_workspace, after.rect_on(mi as usize));
        assert(after.rect_on(mi as usize) == wm.rect_on(mi as usize));
        assert(tiles == wm.tiles(wm.monitors[mi].active_workspace, wm.rect_on(mi as usize)));
        lemma_layout_upto(wm, n, mi);
        let part = wm.monitor_layout(mi);
        let from = choose|from: int|
            0 <= from && from + part.len() <= done.len() && #[trigger] done.subrange(
                from,
                from + part.len(),
            ) == part;
        assert(part[k] == (Effect::Show { id: tiles[k].0, rect: tiles[k].1 }));
        assert(done.subrange(from, from + part.len())[k] == done[from + k]);
        assert(after.effects[old_len + from + k] == part[k]);
    }
    assert forall|mi: int, k: int|
        0 <= mi < after.monitors.len() && 0 <= k
            < after.workspaces[after.monitors[mi].active_workspace as int].floating.len() implies ({
        let f = #[trigger] after.workspaces[after.monitors[mi].active_workspace as int].floating[k];
        shown_since(after, wm, (f.id, f.geometry))
    }) by {
        let floating = wm.workspaces[wm.monitors[mi].active_workspace as int].floating;
        let tiles = wm.tiles(wm.monitors[mi].active_workspace, wm.rect_on(mi as usize));
        lemma_layout_upto(wm, n, mi);
        let part = wm.monitor_layout(mi);
        let from = choose|from: int|
            0 <= from && from + part.len() <= done.len() && #[trigger] done.subrange(
                from,
                from + part.len(),
            ) == part;
        let at = tiles.len() + k;
        assert(part[at] == (Effect::Show { id: floating[k].id, rect: floating[k].geometry }));
        assert(done.subrange(from, from + part.len())[at] == done[from + at]);
        assert(after.effects[old_len + from + at] == part[at]);
    }
}

/// What was shown stays shown when only more is done.
pub proof fn lemma_shown_stays(before: Wm, mid: Wm, after: Wm)
    requires
        shows_all_since(mid, before),
        after.workspaces == mid.workspaces,
        after.monitors == mid.monitors,
        after.bar_height == mid.bar_height,
        after.defs == mid.defs,
        after.gap_inner == mid.gap_inner,
        after.gap_outer == mid.gap_outer,
        mid.effects.len() <= after.effects.len(),
        after.effects.take(mid.effects.len() as int) == mid.effects,
    ensures
        shows_all_since(after, before),
{
    assert forall|tile: (WindowId, Rect)| #[trigger] shown_since(mid, before, tile) implies shown_since(
        after,
        before,
        tile,
    ) by {
        let i = choose|i: int|
            before.effects.len() <= i < mid.effects.len() && #[trigger] mid.effects[i]
                == (Effect::Show { id: tile.0, rect: tile.1 });
        assert(after.effects[i] == after.effects.take(mid.effects.len() as int)[i]);
    }
    assert forall|mi: int, k: int|
        0 <= mi < after.monitors.len() && 0 <= k < after.tiles(
            after.monitors[mi].active_workspace,
            after.rect_on(mi as usize),
        ).len() implies shown_since(
        after,
        before,
        #[trigger] after.tiles(
            after.monitors[mi].active_workspace,
            after.rect_on(mi as usize),
        )[k],
    ) by {
        let idx = after.monitors[mi].active_workspace;
        assert(after.rect_on(mi as usize) == mid.rect_on(mi as usize));
        assert(after.gaps_of(idx) == mid.gaps_of(idx));
        assert(after.tiles(idx, after.rect_on(mi as usize)) == mid.tiles(
            mid.monitors[mi].active_workspace,
            mid.rect_on(mi as usize),
        ));
        assert(shown_since(
            mid,
            before,
            mid.tiles(mid.monitors[mi].active_workspace, mid.rect_on(mi as usize))[k],
        ));
    }
    assert forall|mi: int, k: int|
        0 <= mi < after.monitors.len() && 0 <= k
            < after.workspaces[after.monitors[mi].active_workspace as int].floating.len() implies ({
        let f = #[trigger] after.workspaces[after.monitors[mi].active_workspace as int].floating[k];
        shown_since(after, before, (f.id, f.geometry))
    }) by {
        let f = mid.workspaces[mid.monitors[mi].active_workspace as int].floating[k];
        assert(shown_since(mid, before, (f.id, f.geometry)));
    }
}

// --- Trading places ---

/// After a trade the list of tiles has the same rectangles in the same order,
/// with the two windows traded.
proof fn lemma_traded_tiles(
    t: Tree,
    a: WindowId,
    b: WindowId,
    rect: Rect,
    inner: i64,
    outer: i64,
    is_root: bool,
)
    requires
        !t.in_stack(a),
    ensures
        ({
            let before = t.focus_geometries(rect, inner, outer, is_root);
            t.swapped(a, b).focus_geometries(rect, inner, outer, is_root) == Seq::new(
                before.len(),
                |i: int| (exchange(before[i].0, a, b), before[i].1),
            )
        }),
    decreases t,
{
    let before = t.focus_geometries(rect, inner, outer, is_root);
    let after = t.swapped(a, b).focus_geometries(rect, inner, outer, is_root);
    let traded = Seq::new(before.len(), |i: int| (exchange(before[i].0, a, b), before[i].1));
    match t {
        Tree::Leaf { .. } => {
            assert(after =~= traded);
        },
        Tree::Stack { windows, active, .. } => {
            if 0 <= active < windows.len() {
                assert(windows.contains(windows[active]));
            }
            assert(after =~= traded);
        },
        Tree::Internal { split, ratio, left, right } => {
            let padded = padded_root(rect, outer, is_root);
            let parts = gapped_parts(padded, split, ratio, inner);
            lemma_traded_tiles(*left, a, b, parts.0, inner, outer, false);
            lemma_traded_tiles(*right, a, b, parts.1, inner, outer, false);
            assert(after =~= traded);
        },
    }
}

/// Windows that were traded have each other's rectangles.
proof fn lemma_traded_rects(
    before: Seq<(WindowId, Rect)>,
    after: Seq<(WindowId, Rect)>,
    a: WindowId,
    b: WindowId,
    x: WindowId,
)
    requires
        after == Seq::new(before.len(), |i: int| (exchange(before[i].0, a, b), before[i].1)),
    ensures
        rect_of(after, exchange(x, a, b)) == rect_of(before, x),
    decreases before.len(),
{
    if before.len() > 0 && before[0].0 != x {
        assert(after.drop_first() =~= Seq::new(
            before.drop_first().len(),
            |i: int| (exchange(before.drop_first()[i].0, a, b), before.drop_first()[i].1),
        ));
        lemma_traded_rects(before.drop_first(), after.drop_first(), a, b, x);
    }
}

/// Whether a rectangle keeps a distance from the edge of a screen in a
/// direction.
pub open spec fn keeps_off_edge(rect: Rect, screen: Rect, direction: Direction, by: int) -> bool {
    match direction {
        Direction::Left => rect.x - screen.x > by,
        Direction::Right => (screen.x + screen.width) - (rect.x + rect.width) > by,
        Direction::Up => rect.y - screen.y > by,
        Direction::Down => (screen.y + screen.height) - (rect.y + rect.height) > by,
    }
}

/// A focused window that is in no stack, keeps off the edge of the screen by more
/// than two points beside the outer gap and has a neighbour in a direction trades
/// places with it: in the tree each stands where the other stood and has the
/// rectangle that the other had, every other window stays, nothing else of the
/// workspaces changes, and the new places are shown.
pub proof fn law_swap_trades_places(wm: Wm, direction: Direction, w: WindowId, other: WindowId)
    requires
        wm.active_idx() < wm.workspaces.len(),
        wm.active().focused == Some(w),
        !wm.active().tree.in_stack(w),
        ({
            let tiles = wm.focus_tiles(wm.active_idx(), wm.focused_rect());
            &&& rect_of(tiles, w) is Some
            &&& keeps_off_edge(
                rect_of(tiles, w)->0,
                wm.focused_rect(),
                direction,
                wm.gap_outer + 2000,
            )
            &&& neighbours(tiles, w, direction).len() > 0
            &&& neighbours(tiles, w, direction)[0] == other
        }),
        wm.active().tree.windows().contains(w),
    ensures
        ({
            let after = wm.swap_moved(direction);
            let old_windows = wm.active().tree.windows();
            let new_windows = after.active().tree.windows();
            let old_tiles = wm.focus_tiles(wm.active_idx(), wm.focused_rect());
            let new_tiles = after.focus_tiles(after.active_idx(), after.focused_rect());
            &&& w != other
            &&& old_windows.contains(other)
            &&& after.monitors == wm.monitors
            &&& after.focused_monitor == wm.focused_monitor
            &&& after.workspaces.len() == wm.workspaces.len()
            &&& after.active().focused == Some(w)
            &&& after.active().floating == wm.active().floating
            &&& forall|i: int|
                0 <= i < wm.workspaces.len() && i != wm.active_idx()
                    ==> #[trigger] after.workspaces[i] == wm.workspaces[i]
            &&& new_windows.len() == old_windows.len()
            &&& forall|i: int|
                0 <= i < old_windows.len() ==> #[trigger] new_windows[i] == if old_windows[i] == w {
                    other
                } else if old_windows[i] == other {
                    w
                } else {
                    old_windows[i]
                }
            &&& rect_of(new_tiles, w) == rect_of(old_tiles, other)
            &&& rect_of(new_tiles, other) == rect_of(old_tiles, w)
            &&& forall|x: WindowId|
                x != w && x != other ==> #[trigger] rect_of(new_tiles, x) == rect_of(old_tiles, x)
            &&& shows_all_since(after, wm)
        }),
{
    let idx = wm.active_idx();
    let ws = wm.active();
    let tree = ws.tree;
    let screen = wm.focused_rect();
    let tiles = wm.focus_tiles(idx, screen);
    let (inner, outer) = wm.gaps_of(idx);
    law_outside_stack(tree, w);
    law_neighbours_lie_in_direction(tiles, w, direction, 0);
    let k = choose|k: int|
        0 <= k < tiles.len() && (#[trigger] tiles[k]).0 == neighbours(tiles, w, direction)[0];
    lemma_tiles_of_tree(tree, screen, inner, outer, true, k);
    let changed = Ws { tree: tree.swapped(w, other), ..ws };
    let s = wm.with_ws(idx, changed);
    let after = wm.swap_moved(direction);
    assert(after == s.laid_out().fix_started());
    law_layout_shows_every_window(s);
    assert(shows_all_since(after, s)) by {
        assert(after.effects.take(s.laid_out().effects.len() as int) =~= s.laid_out().effects);
        lemma_shown_stays(s, s.laid_out(), after);
    }
    lemma_since(after, s, wm);
    assert(after.active_idx() == idx);
    assert(after.active() == changed);
    assert(after.gaps_of(idx) == wm.gaps_of(idx));
    assert(after.focused_rect() == screen);
    let new_tiles = after.focus_tiles(after.active_idx(), after.focused_rect());
    lemma_traded_tiles(tree, w, other, screen, inner, outer, true);
    assert forall|x: WindowId| #[trigger] rect_of(new_tiles, x) == rect_of(
        tiles,
        exchange(x, w, other),
    ) by {
        lemma_traded_rects(tiles, new_tiles, w, other, exchange(x, w, other));
    }
    law_swap_exchanges(tree, w, other);
}

/// What was shown since a state was shown since one that had as much done.
pub proof fn lemma_since(after: Wm, mid: Wm, before: Wm)
    requires
        shows_all_since(after, mid),
        mid.effects.len() >= before.effects.len(),
    ensures
        shows_all_since(after, before),
{
    assert forall|tile: (WindowId, Rect)| #[trigger] shown_since(after, mid, tile) implies shown_since(
        after,
        before,
        tile,
    ) by {
        let i = choose|i: int|
            mid.effects.len() <= i < after.effects.len() && #[trigger] after.effects[i]
                == (Effect::Show { id: tile.0, rect: tile.1 });
        assert(after.effects[i] == after.effects[i]);
    }
}

// --- Resizing ---

/// A step of resizing to the right or down gives the focused window fifty thousandths more
/// of the outermost split across the direction, up to nine tenths, and to the left or up so
/// much less, down to one tenth. The windows of the active workspace stay the same, other
/// workspaces do not change, and the new places are shown. Without such a split nothing
/// happens.
pub proof fn law_resize_step(wm: Wm, direction: Direction, w: WindowId)
    requires
        wm.active_idx() < wm.workspaces.len(),
        wm.active().focused == Some(w),
        wm.active().tree.wf(),
    ensures
        ({
            let after = wm.resize_moved(direction);
            let kind = if direction is Left || direction is Right {
                SplitDirection::Vertical
            } else {
                SplitDirection::Horizontal
            };
            match own_share(wm.active().tree, w, kind) {
                Some(share) => {
                    &&& own_share(after.active().tree, w, kind) == Some(
                        if direction is Right || direction is Down {
                            if share + 50 > 900 {
                                900
                            } else {
                                share + 50
                            }
                        } else {
                            if share - 50 < 100 {
                                100
                            } else {
                                share - 50
                            }
                        },
                    )
                    &&& after.active().tree.windows() == wm.active().tree.windows()
                    &&& after.monitors == wm.monitors
                    &&& after.focused_monitor == wm.focused_monitor
                    &&& forall|i: int|
                        0 <= i < wm.workspaces.len() && i != wm.active_idx()
                            ==> #[trigger] after.workspaces[i] == wm.workspaces[i]
                    &&& shows_all_since(after, wm)
                },
                None => after == wm,
            }
        }),
{
    let ws = wm.active();
    law_resize_changes_own_share(ws.tree, w, direction, 50);
    law_resize_keeps_windows(ws.tree, w, direction, 50);
    let s = wm.with_ws(
        wm.active_idx(),
        Ws { tree: ws.tree.resized(w, direction, 50), ..ws },
    );
    law_layout_shows_every_window(s);
    lemma_since(s.laid_out(), s, wm);
}

/// Making even gives both sides of every split of the active workspace the same, keeps its
/// windows in their order, and shows the new places.
pub proof fn law_making_even(wm: Wm)
    requires
        wm.active_idx() < wm.workspaces.len(),
        wm.active().tree.wf(),
    ensures
        ({
            let after = wm.made_even();
            &&& is_even(after.active().tree)
            &&& after.active().tree.windows() == wm.active().tree.windows()
            &&& after.active().floating == wm.active().floating
            &&& forall|i: int|
                0 <= i < wm.workspaces.len() && i != wm.active_idx()
                    ==> #[trigger] after.workspaces[i] == wm.workspaces[i]
            &&& shows_all_since(after, wm)
        }),
{
    let ws = wm.active();
    law_equalize_keeps_windows(ws.tree);
    law_equalize_undoes_resizing(ws.tree, 0, Direction::Left, 0);
    let s = wm.with_ws(wm.active_idx(), Ws { tree: ws.tree.equalized(), ..ws });
    law_layout_shows_every_window(s);
    lemma_since(s.laid_out(), s, wm);
}

// --- Stacks ---

/// Taking the stack of the focused window apart gives its split back, and promoting brings the window
/// to the front of its stack; the window keeps the focus, and the other workspaces stay.
pub proof fn law_focused_stack_is_changed(wm: Wm, w: WindowId, i: int)
    requires
        in_one_place(wm.workspaces),
        0 <= i < wm.workspaces.len() <= usize::MAX,
        wm.effective_focused() == Some(w),
        wm.workspaces[i].tree.in_stack(w),
        wm.workspaces[i].tree.windows().contains(w),
    ensures
        ({
            let was = wm.workspaces[i];
            let apart = wm.restacked(false);
            let first = wm.restacked(true);
            &&& apart.workspaces[i].tree == was.tree.unstacked(w).activated(w)
            &&& first.workspaces[i].tree == was.tree.promoted(w).activated(w)
            &&& apart.workspaces[i].focused == Some(w)
            &&& first.workspaces[i].focused == Some(w)
            &&& apart.workspaces.len() == wm.workspaces.len()
            &&& first.workspaces.len() == wm.workspaces.len()
            &&& forall|j: int|
                0 <= j < wm.workspaces.len() && j != i ==> #[trigger] apart.workspaces[j]
                    == wm.workspaces[j] && first.workspaces[j] == wm.workspaces[j]
        }),
{
    broadcast use vstd::seq_lib::group_to_multiset_ensures;

    let ws = wm.workspaces[i];
    assert(tidy(ws));
    assert(ws.holds(w));
    lemma_home(wm, w, i);
    law_unstack_keeps_windows(ws.tree, w);
    law_promote(ws.tree, w);
    lemma_same_windows(wm, i, ws.tree.unstacked(w));
    lemma_same_windows(wm, i, ws.tree.promoted(w));
    let s = wm.with_ws(i as usize, Ws { tree: ws.tree.unstacked(w), ..ws });
    let t = wm.with_ws(i as usize, Ws { tree: ws.tree.promoted(w), ..ws });
    law_layout_shows_every_window(s);
    law_layout_shows_every_window(t);
    assert(s.workspaces[i].holds(w));
    assert(t.workspaces[i].holds(w));
    law_focused_window_has_focus(s.laid_out(), w, true, i);
    law_focused_window_has_focus(t.laid_out(), w, true, i);
}

/// A workspace whose tree is replaced by a sound one of the same windows holds what it held.
proof fn lemma_same_windows(wm: Wm, i: int, tree: Tree)
    requires
        in_one_place(wm.workspaces),
        0 <= i < wm.workspaces.len() <= usize::MAX,
        tree.valid(),
        tree.windows().to_multiset() == wm.workspaces[i].tree.windows().to_multiset(),
    ensures
        ({
            let ws = wm.workspaces[i];
            let after = wm.with_ws(i as usize, Ws { tree, ..ws });
            &&& in_one_place(after.workspaces)
            &&& forall|x: WindowId| #[trigger] after.workspaces[i].holds(x) == ws.holds(x)
        }),
{
    broadcast use vstd::seq_lib::group_to_multiset_ensures;

    let ws = wm.workspaces[i];
    let now = Ws { tree, ..ws };
    let after = wm.with_ws(i as usize, now);
    assert forall|x: WindowId| #[trigger] now.tree.windows().contains(x)
        == ws.tree.windows().contains(x) by {
        assert(tree.windows().to_multiset().count(x) == ws.tree.windows().to_multiset().count(x));
    }
    assert(tidy(ws));
    assert(tidy(now));
    assert forall|a: int, c: int, x: WindowId| 0 <= a < c < after.workspaces.len() implies !(
    #[trigger] after.workspaces[a].holds(x) && #[trigger] after.workspaces[c].holds(x)) by {
        assert(after.workspaces[a].holds(x) == wm.workspaces[a].holds(x));
        assert(after.workspaces[c].holds(x) == wm.workspaces[c].holds(x));
        assert(!(wm.workspaces[a].holds(x) && wm.workspaces[c].holds(x)));
    }
}

} // verus!
