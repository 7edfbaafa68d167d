//! What the mouse finds, and what it moves.
use vstd::prelude::*;
use crate::seqs::{
    first_where, is_first_where, is_last_where, last_where, lemma_first_where,
    lemma_first_where_found, lemma_last_where,
};
use crate::wm::effects::Effect;
use crate::wm::focus_laws::law_focused_window_has_focus;
use crate::wm::geometry::Rect;
use crate::wm::monitor::{has_point, Monitor};
use crate::wm::navigation::{
    float_at, is_nearest_monitor, monitor_of_point, sideways_distance, tile_at, window_at,
};
use crate::wm::state::{DragMode, Wm};
use crate::wm::window::WindowId;
use crate::wm::workspace::{float_ids, is_float_of, FloatingWindow};
use crate::wm::workspace_laws::in_one_place;

verus! {

// --- What lies under a point ---

/// Whether a point lies in a rectangle, its left and top edges included.
pub open spec fn covers(r: Rect, x: int, y: int) -> bool {
    &&& r.x <= x
    &&& x < r.x + r.width
    &&& r.y <= y
    &&& y < r.y + r.height
}

proof fn lemma_last_found<T>(s: Seq<T>, p: spec_fn(T) -> bool, n: int)
    requires
        0 <= n <= s.len(),
        forall|k: int| n <= k < s.len() ==> !p(#[trigger] s[k]),
    ensures
        match last_where(s, p) {
            Some(i) => 0 <= i < s.len() && p(s[i]) && forall|k: int|
                i < k < s.len() ==> !p(#[trigger] s[k]),
            None => forall|k: int| 0 <= k < s.len() ==> !p(#[trigger] s[k]),
        },
    decreases n,
{
    if n == 0 {
        assert forall|i: int| !is_last_where(s, p, i) by {}
    } else if p(s[n - 1]) {
        assert(is_last_where(s, p, n - 1));
        lemma_last_where(s, p, n - 1);
    } else {
        lemma_last_found(s, p, n - 1);
    }
}

/// Under a point lies the last floating window that covers it, for later ones are
/// further up; where none does, the last tile that covers it; and where no tile does
/// either, nothing.
pub proof fn law_topmost_window_is_found(
    floating: Seq<FloatingWindow>,
    tiles: Seq<(WindowId, Rect)>,
    x: int,
    y: int,
)
    ensures
        match window_at(floating, tiles, x, y) {
            Some(w) => {
                ||| exists|i: int|
                    0 <= i < floating.len() && (#[trigger] floating[i]).id == w && covers(
                        floating[i].geometry,
                        x,
                        y,
                    ) && forall|k: int|
                        i < k < floating.len() ==> !covers((#[trigger] floating[k]).geometry, x, y)
                ||| {
                    &&& forall|k: int|
                        0 <= k < floating.len() ==> !covers(
                            (#[trigger] floating[k]).geometry,
                            x,
                            y,
                        )
                    &&& exists|i: int|
                        0 <= i < tiles.len() && (#[trigger] tiles[i]).0 == w && covers(
                            tiles[i].1,
                            x,
                            y,
                        ) && forall|k: int|
                            i < k < tiles.len() ==> !covers((#[trigger] tiles[k]).1, x, y)
                }
            },
            None => {
                &&& forall|k: int|
                    0 <= k < floating.len() ==> !covers((#[trigger] floating[k]).geometry, x, y)
                &&& forall|k: int| 0 <= k < tiles.len() ==> !covers((#[trigger] tiles[k]).1, x, y)
            },
        },
{
    let p = float_at(x, y);
    let q = tile_at(x, y);
    lemma_last_found(floating, p, floating.len() as int);
    lemma_last_found(tiles, q, tiles.len() as int);
    assert forall|k: int| 0 <= k < floating.len() implies p(#[trigger] floating[k]) == covers(
        floating[k].geometry,
        x,
        y,
    ) by {}
    assert forall|k: int| 0 <= k < tiles.len() implies q(#[trigger] tiles[k]) == covers(
        tiles[k].1,
        x,
        y,
    ) by {}
    match last_where(floating, p) {
        Some(i) => {
            assert(floating[i].id == window_at(floating, tiles, x, y)->0);
        },
        None => {
            if let Some(i) = last_where(tiles, q) {
                assert(tiles[i].0 == window_at(floating, tiles, x, y)->0);
            }
        },
    }
}

/// Twice the distance of a point from the middle of a monitor, from left to right.
pub open spec fn off_middle(m: Monitor, x: int) -> int {
    let d = 2 * x - (2 * m.frame.x + m.frame.width);
    if d < 0 {
        -d
    } else {
        d
    }
}

/// Whether a number is the first of the least of a list.
pub open spec fn is_first_least(keys: Seq<int>, i: int) -> bool {
    &&& 0 <= i < keys.len()
    &&& forall|j: int| 0 <= j < keys.len() ==> keys[i] <= #[trigger] keys[j]
    &&& forall|j: int| 0 <= j < i ==> keys[i] < #[trigger] keys[j]
}

/// A list has a first of its least numbers.
pub proof fn lemma_first_least(keys: Seq<int>)
    requires
        keys.len() > 0,
    ensures
        exists|i: int| is_first_least(keys, i),
    decreases keys.len(),
{
    let last = keys.len() - 1;
    if last == 0 {
        assert(is_first_least(keys, 0));
    } else {
        let rest = keys.drop_last();
        lemma_first_least(rest);
        let i = choose|i: int| is_first_least(rest, i);
        assert(forall|j: int| 0 <= j < rest.len() ==> rest[j] == keys[j]);
        if keys[last] < keys[i] {
            assert forall|j: int| 0 <= j < last implies keys[last] < #[trigger] keys[j] by {
                assert(rest[i] <= rest[j]);
            }
            assert(is_first_least(keys, last));
        } else {
            assert forall|j: int| 0 <= j < keys.len() implies keys[i] <= #[trigger] keys[j] by {
                if j < last {
                    assert(rest[i] <= rest[j]);
                }
            }
            assert forall|j: int| 0 <= j < i implies keys[i] < #[trigger] keys[j] by {
                assert(rest[i] < rest[j]);
            }
            assert(is_first_least(keys, i));
        }
    }
}

/// The monitor of a point is the first one that covers it. Where none does, it is one
/// to whose middle the point is not farther, from left to right, than to that of any
/// other, but for half a unit; and none if there is none.
pub proof fn law_monitor_of_point(monitors: Seq<Monitor>, x: int, y: int, k: int)
    ensures
        0 <= k < monitors.len() && covers(monitors[k].frame, x, y) && (forall|j: int|
            0 <= j < k ==> !covers((#[trigger] monitors[j]).frame, x, y)) ==> monitor_of_point(
            monitors,
            x,
            y,
        ) == Some(k),
        monitors.len() == 0 ==> monitor_of_point(monitors, x, y) is None,
        monitors.len() > 0 && (forall|j: int|
            0 <= j < monitors.len() ==> !covers((#[trigger] monitors[j]).frame, x, y)) ==> {
            let i = monitor_of_point(monitors, x, y)->0;
            &&& monitor_of_point(monitors, x, y) is Some
            &&& 0 <= i < monitors.len()
            &&& forall|j: int|
                0 <= j < monitors.len() ==> off_middle(monitors[i], x) <= 1 + #[trigger] off_middle(
                    monitors[j],
                    x,
                )
        },
{
    let p = has_point(x, y);
    lemma_first_where_found(monitors, p);
    if monitors.len() > 0 && (forall|j: int|
        0 <= j < monitors.len() ==> !covers((#[trigger] monitors[j]).frame, x, y)) {
        if let Some(i) = first_where(monitors, p) {
            assert(p(monitors[i]));
            assert(covers(monitors[i].frame, x, y));
        }
        let keys = Seq::new(monitors.len(), |i: int| sideways_distance(monitors[i], x));
        lemma_first_least(keys);
        let m = choose|m: int| is_first_least(keys, m);
        assert(is_first_least(keys, m));
        assert forall|j: int| 0 <= j < monitors.len() implies sideways_distance(monitors[m], x)
            <= #[trigger] sideways_distance(monitors[j], x) by {
            assert(keys[m] <= keys[j]);
        }
        assert forall|j: int| 0 <= j < m implies sideways_distance(monitors[m], x)
            < #[trigger] sideways_distance(monitors[j], x) by {
            assert(keys[m] < keys[j]);
        }
        assert(is_nearest_monitor(monitors, x, m));
        let i = choose|i: int| is_nearest_monitor(monitors, x, i);
        assert(is_nearest_monitor(monitors, x, i));
        assert forall|j: int| 0 <= j < monitors.len() implies off_middle(monitors[i], x) <= 1
            + #[trigger] off_middle(monitors[j], x) by {
            assert(sideways_distance(monitors[i], x) <= sideways_distance(monitors[j], x));
        }
    }
    if 0 <= k < monitors.len() && covers(monitors[k].frame, x, y) && (forall|j: int|
        0 <= j < k ==> !covers((#[trigger] monitors[j]).frame, x, y)) {
        assert(p(monitors[k]));
        assert forall|j: int| 0 <= j < k implies !p(#[trigger] monitors[j]) by {
            assert(!covers(monitors[j].frame, x, y));
        }
        assert(is_first_where(monitors, p, k));
        lemma_first_where(monitors, p, k);
    }
}

// --- Clicks and hovering ---

/// A click on a window of the active workspace gives it the focus.
pub proof fn law_click_focuses_window(wm: Wm, x: int, y: int, w: WindowId)
    requires
        in_one_place(wm.workspaces),
        wm.workspaces.len() <= usize::MAX,
        wm.active_idx() < wm.workspaces.len(),
        wm.active().holds(w),
        window_at(
            wm.active().floating,
            wm.tiles(wm.active_idx(), wm.focused_rect()),
            x,
            y,
        ) == Some(w),
    ensures
        wm.clicked(x, y).active().focused == Some(w),
        wm.clicked(x, y).hovered == Some(w),
        wm.clicked(x, y).monitors == wm.monitors,
        wm.clicked(x, y).focused_monitor == wm.focused_monitor,
{
    if wm.active().focused != Some(w) {
        let s = Wm { hovered: Some(w), ..wm };
        law_focused_window_has_focus(s, w, true, wm.active_idx() as int);
        reveal(Wm::focused_on);
    }
}

/// A click beside all windows changes nothing.
pub proof fn law_click_on_nothing(wm: Wm, x: int, y: int)
    requires
        forall|k: int|
            0 <= k < wm.active().floating.len() ==> !covers(
                (#[trigger] wm.active().floating[k]).geometry,
                x,
                y,
            ),
        forall|k: int|
            0 <= k < wm.tiles(wm.active_idx(), wm.focused_rect()).len() ==> !covers(
                (#[trigger] wm.tiles(wm.active_idx(), wm.focused_rect())[k]).1,
                x,
                y,
            ),
    ensures
        wm.clicked(x, y) == wm,
{
    law_topmost_window_is_found(
        wm.active().floating,
        wm.tiles(wm.active_idx(), wm.focused_rect()),
        x,
        y,
    );
}

/// The mouse is followed only if it is to be, and not within the time that it was
/// kept still after being moved itself.
pub proof fn law_mouse_is_followed_only_if_asked(wm: Wm, x: int, y: int)
    ensures
        !wm.focus_follows_mouse ==> wm.mouse_followed(x, y) == wm,
        wm.cooldown is Some && wm.now < wm.cooldown->0 ==> wm.mouse_followed(x, y) == wm,
{
}

/// Where the mouse is followed and stays on the focused monitor, the window under it
/// gets the focus, unless the mouse was over it already. With no overlay that is a
/// window of the active workspace.
pub proof fn law_hovered_window_gets_focus(wm: Wm, x: int, y: int, w: WindowId)
    requires
        in_one_place(wm.workspaces),
        wm.workspaces.len() <= usize::MAX,
        wm.active_idx() < wm.workspaces.len(),
        wm.focus_follows_mouse,
        wm.cooldown is None || wm.cooldown->0 <= wm.now,
        monitor_of_point(wm.monitors, x, y) == Some(wm.focused_monitor as int),
        wm.special_on(wm.focused_monitor) is None,
        window_at(
            wm.active().floating,
            wm.focus_tiles(wm.active_idx(), wm.focused_rect()),
            x,
            y,
        ) == Some(w),
        wm.active().holds(w),
    ensures
        ({
            let after = wm.mouse_followed(x, y);
            &&& after.hovered == Some(w)
            &&& wm.hovered != Some(w) ==> after.active().focused == Some(w)
            &&& wm.hovered == Some(w) ==> after.workspaces == wm.workspaces
            &&& after.focused_monitor == wm.focused_monitor
        }),
{
    let s = Wm { cooldown: None, ..wm };
    assert(s.window_under(x, y) == Some(w));
    if wm.hovered != Some(w) {
        let t = Wm { hovered: Some(w), ..s };
        law_focused_window_has_focus(t, w, true, wm.active_idx() as int);
        reveal(Wm::focused_on);
    }
}

// --- Dragging ---

/// Whether a window is the topmost of some floating windows under a point.
pub open spec fn is_topmost(floating: Seq<FloatingWindow>, i: int, x: int, y: int) -> bool {
    &&& 0 <= i < floating.len()
    &&& covers(floating[i].geometry, x, y)
    &&& forall|k: int|
        i < k < floating.len() ==> !covers((#[trigger] floating[k]).geometry, x, y)
}

proof fn lemma_drag_begun(wm: Wm, i: int, x: i64, y: i64, mode: DragMode)
    requires
        is_topmost(wm.active().floating, i, x as int, y as int),
        float_ids(wm.active().floating).no_duplicates(),
    ensures
        wm.drag_begun(x, y, mode).drag is Some,
        ({
            let d = wm.drag_begun(x, y, mode).drag->0;
            let f = wm.active().floating[i];
            &&& d.window_id == f.id
            &&& d.mode == mode
            &&& d.start_x == x
            &&& d.start_y == y
            &&& d.start_geometry == f.geometry
        }),
        wm.drag_begun(x, y, mode).workspaces == wm.workspaces,
        wm.drag_begun(x, y, mode).monitors == wm.monitors,
        wm.drag_begun(x, y, mode).focused_monitor == wm.focused_monitor,
        wm.drag_begun(x, y, mode).effects == wm.effects,
        first_where(wm.active().floating, is_float_of(wm.active().floating[i].id)) == Some(i),
{
    let floating = wm.active().floating;
    let p = float_at(x as int, y as int);
    assert(p(floating[i]));
    assert forall|k: int| i < k < floating.len() implies !p(#[trigger] floating[k]) by {
        assert(!covers(floating[k].geometry, x as int, y as int));
    }
    assert(is_last_where(floating, p, i));
    lemma_last_where(floating, p, i);
    let q = is_float_of(floating[i].id);
    assert forall|k: int| 0 <= k < i implies !q(#[trigger] floating[k]) by {
        assert(float_ids(floating)[k] != float_ids(floating)[i]);
    }
    assert(is_first_where(floating, q, i));
    lemma_first_where(floating, q, i);
}

/// Dragging the topmost floating window under the mouse moves it as far as the mouse
/// moved and keeps its size; nothing else moves.
pub proof fn law_dragged_window_follows_mouse(wm: Wm, i: int, x: i64, y: i64, to_x: i64, to_y: i64)
    requires
        wm.active_idx() < wm.workspaces.len(),
        is_topmost(wm.active().floating, i, x as int, y as int),
        float_ids(wm.active().floating).no_duplicates(),
        i64::MIN <= wm.active().floating[i].geometry.x + (to_x - x) <= i64::MAX,
        i64::MIN <= wm.active().floating[i].geometry.y + (to_y - y) <= i64::MAX,
    ensures
        ({
            let after = wm.drag_begun(x, y, DragMode::Move).drag_updated(to_x, to_y);
            let was = wm.active().floating;
            let now = after.active().floating;
            &&& now.len() == was.len()
            &&& now[i].id == was[i].id
            &&& now[i].geometry.x - was[i].geometry.x == to_x - x
            &&& now[i].geometry.y - was[i].geometry.y == to_y - y
            &&& now[i].geometry.width == was[i].geometry.width
            &&& now[i].geometry.height == was[i].geometry.height
            &&& forall|k: int| 0 <= k < was.len() && k != i ==> #[trigger] now[k] == was[k]
            &&& forall|j: int|
                0 <= j < wm.workspaces.len() && j != wm.active_idx()
                    ==> #[trigger] after.workspaces[j] == wm.workspaces[j]
            &&& after.active().tree == wm.active().tree
            &&& after.effects.len() == wm.effects.len() + 1
            &&& after.effects.last() == (Effect::Move {
                id: was[i].id,
                x: now[i].geometry.x,
                y: now[i].geometry.y,
            })
        }),
{
    lemma_drag_begun(wm, i, x, y, DragMode::Move);
    let s = wm.drag_begun(x, y, DragMode::Move);
    assert(s.active() == wm.active());
}

/// Dragging for size changes the width and height of the topmost floating window under
/// the mouse by as much as the mouse moved, but not below 200 by 100 points, and keeps
/// its place; nothing else moves.
pub proof fn law_dragged_window_takes_size(wm: Wm, i: int, x: i64, y: i64, to_x: i64, to_y: i64)
    requires
        wm.active_idx() < wm.workspaces.len(),
        is_topmost(wm.active().floating, i, x as int, y as int),
        float_ids(wm.active().floating).no_duplicates(),
        wm.active().floating[i].geometry.width + (to_x - x) <= i64::MAX,
        wm.active().floating[i].geometry.height + (to_y - y) <= i64::MAX,
    ensures
        ({
            let after = wm.drag_begun(x, y, DragMode::Resize).drag_updated(to_x, to_y);
            let was = wm.active().floating;
            let now = after.active().floating;
            let width = was[i].geometry.width + (to_x - x);
            let height = was[i].geometry.height + (to_y - y);
            &&& now.len() == was.len()
            &&& now[i].id == was[i].id
            &&& now[i].geometry.x == was[i].geometry.x
            &&& now[i].geometry.y == was[i].geometry.y
            &&& now[i].geometry.width == if width < 200_000 {
                200_000
            } else {
                width
            }
            &&& now[i].geometry.height == if height < 100_000 {
                100_000
            } else {
                height
            }
            &&& forall|k: int| 0 <= k < was.len() && k != i ==> #[trigger] now[k] == was[k]
            &&& after.effects.len() == wm.effects.len() + 1
            &&& after.effects.last() == (Effect::Resize {
                id: was[i].id,
                width: now[i].geometry.width,
                height: now[i].geometry.height,
            })
        }),
{
    lemma_drag_begun(wm, i, x, y, DragMode::Resize);
    let s = wm.drag_begun(x, y, DragMode::Resize);
    assert(s.active() == wm.active());
}

/// No drag starts where no floating window is, and the mouse moves nothing without one.
pub proof fn law_nothing_is_dragged(wm: Wm, x: i64, y: i64, mode: DragMode)
    ensures
        (forall|k: int|
            0 <= k < wm.active().floating.len() ==> !covers(
                (#[trigger] wm.active().floating[k]).geometry,
                x as int,
                y as int,
            )) ==> wm.drag_begun(x, y, mode) == wm,
        wm.drag is None ==> wm.drag_updated(x, y) == wm,
{
    let floating = wm.active().floating;
    let p = float_at(x as int, y as int);
    lemma_last_found(floating, p, floating.len() as int);
    if let Some(i) = last_where(floating, p) {
        assert(covers(floating[i].geometry, x as int, y as int));
    }
}

} // verus!
