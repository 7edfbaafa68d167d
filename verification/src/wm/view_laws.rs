//! What can be seen: hidden windows, borders, overlays and windows let float.
use vstd::prelude::*;
use crate::seqs::{first_where, is_first_where, lemma_first_where, lemma_first_where_found};
use crate::wm::adjacency::{ids_of, rect_of};
use crate::wm::effects::{float_geometries, Effect};
use crate::wm::focus_laws::law_focused_window_has_focus;
use crate::wm::geometry::Rect;
use crate::wm::monitor::shows;
use crate::wm::layout_laws::law_every_window_placed;
use crate::wm::screen_laws::law_tile_floats_where_it_was;
use crate::wm::sending_laws::hidden_since;
use crate::wm::state::Wm;
use crate::wm::switching::overlay_rect;
use crate::wm::window::WindowId;
use crate::wm::workspace::{float_ids, is_float_of, is_named, FloatingWindow, Ws, WsId};
use crate::wm::workspace_laws::{in_one_place, tidy};

verus! {

// --- Hidden windows ---

/// Whether no monitor shows a workspace and no overlay does.
pub open spec fn is_out_of_sight(wm: Wm, i: int) -> bool {
    &&& forall|m: int|
        0 <= m < wm.monitors.len() ==> (#[trigger] wm.monitors[m]).active_workspace != i
    &&& forall|m: int| 0 <= m < wm.specials.len() ==> #[trigger] wm.specials[m] != Some(i as usize)
}

proof fn lemma_out_of_sight(wm: Wm, i: int)
    requires
        0 <= i <= usize::MAX,
    ensures
        is_out_of_sight(wm, i) == !wm.is_visible(i as usize),
{
    let p = shows(i as usize);
    lemma_first_where_found(wm.monitors, p);
    if let Some(m) = first_where(wm.monitors, p) {
        assert(p(wm.monitors[m]));
        assert(wm.monitors[m].active_workspace == i);
    } else {
        assert forall|m: int| 0 <= m < wm.monitors.len() implies (
        #[trigger] wm.monitors[m]).active_workspace != i by {
            assert(!p(wm.monitors[m]));
        }
    }
    if wm.specials.contains(Some(i as usize)) {
        let m = choose|m: int| 0 <= m < wm.specials.len() && wm.specials[m] == Some(i as usize);
        assert(wm.specials[m] == Some(i as usize));
    }
}

proof fn lemma_hides(wm: Wm, n: int, i: int, k: int)
    requires
        0 <= i < n,
        !wm.is_visible(i as usize),
        0 <= k < wm.workspaces[i].window_ids().len(),
    ensures
        exists|e: int|
            0 <= e < wm.hides_upto(n, false).len() && #[trigger] wm.hides_upto(n, false)[e]
                == wm.hide_of(wm.workspaces[i].window_ids()[k]),
    decreases n,
{
    let less = wm.hides_upto(n - 1, false);
    let all = wm.hides_upto(n, false);
    if i == n - 1 {
        assert(all[less.len() + k] == wm.hides_of(wm.workspaces[i].window_ids())[k]);
    } else {
        lemma_hides(wm, n - 1, i, k);
        let e = choose|e: int|
            0 <= e < less.len() && #[trigger] less[e] == wm.hide_of(
                wm.workspaces[i].window_ids()[k],
            );
        assert(all[e] == less[e]);
    }
}

proof fn lemma_only_unseen_hidden(wm: Wm, n: int, e: int)
    requires
        0 <= e < wm.hides_upto(n, false).len(),
    ensures
        exists|i: int, k: int|
            0 <= i < n && !wm.is_visible(i as usize) && 0 <= k
                < wm.workspaces[i].window_ids().len() && wm.hides_upto(n, false)[e] == wm.hide_of(
                #[trigger] wm.workspaces[i].window_ids()[k],
            ),
    decreases n,
{
    if n > 0 {
        let less = wm.hides_upto(n - 1, false);
        if e < less.len() {
            lemma_only_unseen_hidden(wm, n - 1, e);
            let (i, k) = choose|i: int, k: int|
                0 <= i < n - 1 && !wm.is_visible(i as usize) && 0 <= k
                    < wm.workspaces[i].window_ids().len() && less[e] == wm.hide_of(
                    #[trigger] wm.workspaces[i].window_ids()[k],
                );
            assert(wm.hides_upto(n, false)[e] == wm.hide_of(wm.workspaces[i].window_ids()[k]));
        } else {
            let k = e - less.len();
            assert(!wm.is_visible((n - 1) as usize));
            assert(wm.hides_upto(n, false)[e] == wm.hide_of(wm.workspaces[n - 1].window_ids()[k]));
        }
    }
}

/// Every window of a workspace that is out of sight is hidden, and no other window is.
pub proof fn law_windows_out_of_sight_are_hidden(wm: Wm)
    requires
        wm.workspaces.len() <= usize::MAX,
    ensures
        ({
            let after = wm.unseen_hidden();
            &&& after.workspaces == wm.workspaces
            &&& forall|i: int, k: int|
                0 <= i < wm.workspaces.len() && is_out_of_sight(wm, i) && 0 <= k
                    < wm.workspaces[i].window_ids().len() ==> hidden_since(
                    after,
                    wm,
                    #[trigger] wm.workspaces[i].window_ids()[k],
                )
            &&& forall|e: int|
                wm.effects.len() <= e < after.effects.len() ==> ({
                    &&& #[trigger] after.effects[e] is Hide
                    &&& exists|i: int, k: int|
                        0 <= i < wm.workspaces.len() && is_out_of_sight(wm, i) && 0 <= k
                            < wm.workspaces[i].window_ids().len() && after.effects[e]->Hide_id
                            == #[trigger] wm.workspaces[i].window_ids()[k]
                })
        }),
{
    let after = wm.unseen_hidden();
    let n = wm.workspaces.len() as int;
    let more = wm.hides_upto(n, false);
    assert forall|i: int, k: int|
        0 <= i < n && is_out_of_sight(wm, i) && 0 <= k
            < wm.workspaces[i].window_ids().len() implies hidden_since(
        after,
        wm,
        #[trigger] wm.workspaces[i].window_ids()[k],
    ) by {
        lemma_out_of_sight(wm, i);
        lemma_hides(wm, n, i, k);
        let e = choose|e: int|
            0 <= e < more.len() && #[trigger] more[e] == wm.hide_of(
                wm.workspaces[i].window_ids()[k],
            );
        let at = wm.effects.len() + e;
        assert(after.effects[at] == more[e]);
        assert(after.effects[at] matches Effect::Hide { id, .. } && id
            == wm.workspaces[i].window_ids()[k]);
    }
    assert forall|e: int| wm.effects.len() <= e < after.effects.len() implies ({
        &&& #[trigger] after.effects[e] is Hide
        &&& exists|i: int, k: int|
            0 <= i < wm.workspaces.len() && is_out_of_sight(wm, i) && 0 <= k
                < wm.workspaces[i].window_ids().len() && after.effects[e]->Hide_id
                == #[trigger] wm.workspaces[i].window_ids()[k]
    }) by {
        let at = e - wm.effects.len();
        assert(after.effects[e] == more[at]);
        lemma_only_unseen_hidden(wm, n, at);
        let (i, k) = choose|i: int, k: int|
            0 <= i < n && !wm.is_visible(i as usize) && 0 <= k
                < wm.workspaces[i].window_ids().len() && more[at] == wm.hide_of(
                #[trigger] wm.workspaces[i].window_ids()[k],
            );
        lemma_out_of_sight(wm, i);
        assert(after.effects[e]->Hide_id == wm.workspaces[i].window_ids()[k]);
    }
}

// --- Borders ---

/// Whether the border of a window was drawn round a rectangle since some earlier state, as that of
/// the focused window or not.
pub open spec fn bordered_since(
    after: Wm,
    before: Wm,
    tile: (WindowId, Rect),
    focused: bool,
) -> bool {
    exists|e: int|
        before.effects.len() <= e < after.effects.len() && #[trigger] after.effects[e]
            == (Effect::Border { id: tile.0, rect: tile.1, focused })
}

proof fn lemma_borders(wm: Wm, n: int, mi: int, at: int)
    requires
        0 <= mi < n,
        0 <= at < wm.monitor_borders(mi).len(),
    ensures
        exists|e: int|
            0 <= e < wm.borders_upto(n).len() && #[trigger] wm.borders_upto(n)[e]
                == wm.monitor_borders(mi)[at],
    decreases n,
{
    let less = wm.borders_upto(n - 1);
    let all = wm.borders_upto(n);
    if mi == n - 1 {
        assert(all[less.len() + at] == wm.monitor_borders(mi)[at]);
    } else {
        lemma_borders(wm, n - 1, mi, at);
        let e = choose|e: int|
            0 <= e < less.len() && #[trigger] less[e] == wm.monitor_borders(mi)[at];
        assert(all[e] == less[e]);
    }
}

/// If there are borders, one is drawn round every tile and every floating window that a monitor
/// shows, in the place where it is, and as that of the focused window if and only if it has the
/// focus on its workspace. Without borders none is drawn.
pub proof fn law_borders_are_drawn(wm: Wm)
    ensures
        !wm.borders ==> wm.bordered() == wm,
        wm.borders ==> {
            let after = wm.bordered();
            &&& forall|mi: int, k: int|
                0 <= mi < wm.monitors.len() && 0 <= k < wm.focus_tiles(
                    wm.monitors[mi].active_workspace,
                    wm.rect_on(mi as usize),
                ).len() ==> ({
                    let tile = #[trigger] wm.focus_tiles(
                        wm.monitors[mi].active_workspace,
                        wm.rect_on(mi as usize),
                    )[k];
                    let ws = wm.workspaces[wm.monitors[mi].active_workspace as int];
                    bordered_since(after, wm, tile, ws.focused == Some(tile.0))
                })
            &&& forall|mi: int, k: int|
                0 <= mi < wm.monitors.len() && 0 <= k
                    < wm.workspaces[wm.monitors[mi].active_workspace as int].floating.len() ==> ({
                    let ws = wm.workspaces[wm.monitors[mi].active_workspace as int];
                    let f = #[trigger] wm.workspaces[wm.monitors[mi].active_workspace as int].floating[k];
                    bordered_since(after, wm, (f.id, f.geometry), ws.focused == Some(f.id))
                })
        },
{
    if wm.borders {
        let after = wm.bordered();
        let n = wm.monitors.len() as int;
        let more = wm.borders_upto(n);
        assert forall|mi: int, k: int|
            0 <= mi < wm.monitors.len() && 0 <= k < wm.focus_tiles(
                wm.monitors[mi].active_workspace,
                wm.rect_on(mi as usize),
            ).len() implies ({
            let tile = #[trigger] wm.focus_tiles(
                wm.monitors[mi].active_workspace,
                wm.rect_on(mi as usize),
            )[k];
            let ws = wm.workspaces[wm.monitors[mi].active_workspace as int];
            bordered_since(after, wm, tile, ws.focused == Some(tile.0))
        }) by {
            lemma_borders(wm, n, mi, k);
            let e = choose|e: int|
                0 <= e < more.len() && #[trigger] more[e] == wm.monitor_borders(mi)[k];
            assert(after.effects[wm.effects.len() + e] == more[e]);
        }
        assert forall|mi: int, k: int|
            0 <= mi < wm.monitors.len() && 0 <= k
                < wm.workspaces[wm.monitors[mi].active_workspace as int].floating.len() implies ({
            let ws = wm.workspaces[wm.monitors[mi].active_workspace as int];
            let f = #[trigger] wm.workspaces[wm.monitors[mi].active_workspace as int].floating[k];
            bordered_since(after, wm, (f.id, f.geometry), ws.focused == Some(f.id))
        }) by {
            let tiles = wm.focus_tiles(wm.monitors[mi].active_workspace, wm.rect_on(mi as usize));
            let at = tiles.len() + k;
            lemma_borders(wm, n, mi, at);
            let e = choose|e: int|
                0 <= e < more.len() && #[trigger] more[e] == wm.monitor_borders(mi)[at];
            assert(after.effects[wm.effects.len() + e] == more[e]);
        }
    }
}

// --- Overlays ---

/// A special workspace that is laid over the focused monitor shows its tiles above the others, each
/// in its part of the rectangle of the overlay, and its floating windows where they float.
pub proof fn law_overlay_shows_its_windows(wm: Wm, name: Seq<char>, idx: usize)
    requires
        wm.focused_monitor < wm.monitors.len() <= usize::MAX,
        wm.workspaces.len() <= usize::MAX,
        idx < wm.workspaces.len(),
        wm.workspaces[idx as int].id == WsId::Special(name),
        forall|j: int| 0 <= j < idx ==> (#[trigger] wm.workspaces[j]).id != WsId::Special(name),
        wm.special_on(wm.focused_monitor) is None,
        wm.specials.len() <= wm.monitors.len(),
    ensures
        ({
            let after = wm.special_toggled(name);
            let ws = wm.workspaces[idx as int];
            let tiles = wm.tiles(
                idx,
                overlay_rect(wm.rect_on(wm.focused_monitor), wm.overlay_named(name)),
            );
            ws.window_ids().len() > 0 ==> {
                &&& forall|k: int|
                    0 <= k < tiles.len() ==> wm.effects.len() + k < after.effects.len()
                        && after.effects[wm.effects.len() + k] == (Effect::ShowAbove {
                        id: (#[trigger] tiles[k]).0,
                        rect: tiles[k].1,
                    })
                &&& forall|k: int|
                    0 <= k < ws.floating.len() ==> wm.effects.len() + tiles.len() + k
                        < after.effects.len() && after.effects[wm.effects.len() + tiles.len() + k]
                        == (Effect::ShowAbove {
                        id: (#[trigger] ws.floating[k]).id,
                        rect: ws.floating[k].geometry,
                    })
            }
        }),
{
    let id = WsId::Special(name);
    assert(is_first_where(wm.workspaces, is_named(id), idx as int));
    lemma_first_where(wm.workspaces, is_named(id), idx as int);
    let mi = wm.focused_monitor;
    let s = wm.with_workspace(id).specials_padded();
    let bare = s.special_dismissed(mi);
    assert(bare == s);
    let shown = Wm {
        specials: bare.specials.update(mi as int, Some(idx)),
        workspaces: bare.workspaces.update(
            idx as int,
            Ws { last_monitor: Some(mi), ..bare.workspaces[idx as int] },
        ),
        ..bare
    }.visibility_synced();
    let ws = shown.workspaces[idx as int];
    assert(ws.tree == wm.workspaces[idx as int].tree);
    assert(ws.floating == wm.workspaces[idx as int].floating);
    assert(shown.rect_on(mi) == wm.rect_on(mi));
    assert(shown.overlay_named(name) == wm.overlay_named(name));
    assert(shown.gaps_of(idx) == wm.gaps_of(idx));
    let tiles = shown.tiles(idx, overlay_rect(shown.rect_on(mi), shown.overlay_named(name)));
    let more = crate::wm::effects::shows_above_of(tiles) + crate::wm::effects::shows_above_of(
        float_geometries(ws.floating),
    );
    let after = wm.special_toggled(name);
    assert(after == bare.special_shown(mi, idx, name));
    if wm.workspaces[idx as int].window_ids().len() > 0 {
        let told = shown.did(more);
        if let Some(w) = (match ws.focused {
            Some(w) => Some(w),
            None => if tiles.len() > 0 {
                Some(tiles[0].0)
            } else {
                None
            },
        }) {
            lemma_focus_adds(told, w);
        }
        assert(after.effects.take(told.effects.len() as int) =~= told.effects);
        assert forall|k: int| 0 <= k < more.len() implies after.effects[wm.effects.len() + k]
            == #[trigger] more[k] && wm.effects.len() + k < after.effects.len() by {
            assert(told.effects[wm.effects.len() + k] == more[k]);
            assert(after.effects.take(told.effects.len() as int)[wm.effects.len() + k]
                == after.effects[wm.effects.len() + k]);
        }
        assert forall|k: int| 0 <= k < tiles.len() implies wm.effects.len() + k
            < after.effects.len() && after.effects[wm.effects.len() + k] == (Effect::ShowAbove {
            id: (#[trigger] tiles[k]).0,
            rect: tiles[k].1,
        }) by {
            assert(more[k] == (Effect::ShowAbove { id: tiles[k].0, rect: tiles[k].1 }));
        }
        assert forall|k: int| 0 <= k < ws.floating.len() implies wm.effects.len() + tiles.len() + k
            < after.effects.len() && after.effects[wm.effects.len() + tiles.len() + k]
            == (Effect::ShowAbove {
            id: (#[trigger] ws.floating[k]).id,
            rect: ws.floating[k].geometry,
        }) by {
            assert(more[tiles.len() + k] == (Effect::ShowAbove {
                id: ws.floating[k].id,
                rect: ws.floating[k].geometry,
            }));
        }
    }
}

/// Giving a window the focus does more and takes nothing back.
proof fn lemma_focus_adds(wm: Wm, w: WindowId)
    ensures
        wm.effects.len() <= wm.focused_on(w, true).effects.len(),
        wm.focused_on(w, true).effects.take(wm.effects.len() as int) == wm.effects,
{
    reveal(Wm::focused_on);
    let after = wm.focused_on(w, true);
    assert(after.effects.take(wm.effects.len() as int) =~= wm.effects);
}

// --- Windows let float ---

/// A focused tile that is let float comes on top of the floating windows in the place of its tile
/// without gaps, is moved there and given that size, and stays no tile.
pub proof fn law_focused_tile_floats(wm: Wm, w: WindowId)
    requires
        wm.active_idx() < wm.workspaces.len(),
        tidy(wm.active()),
        wm.active().focused == Some(w),
        wm.active().tree.windows().contains(w),
    ensures
        ({
            let after = wm.float_switched();
            let place = rect_of(wm.active().tree.geometries(wm.focused_rect(), 0, 0, true), w)->0;
            &&& after.active().floating == wm.active().floating.push(
                (FloatingWindow { id: w, geometry: place }),
            )
            &&& after.active().tree == wm.active().tree.removed(w)
            &&& after.monitors == wm.monitors
            &&& exists|e: int|
                wm.effects.len() <= e && e + 1 < after.effects.len() && #[trigger] after.effects[e]
                    == (Effect::Move { id: w, x: place.x, y: place.y }) && after.effects[e + 1]
                    == (Effect::Resize { id: w, width: place.width, height: place.height })
        }),
{
    let ws = wm.active();
    let screen = wm.focused_rect();
    law_tile_floats_where_it_was(ws, w, screen);
    let changed = ws.float_toggled(w, screen);
    let place = rect_of(ws.tree.geometries(screen, 0, 0, true), w)->0;
    let last = ws.floating.len() as int;
    let p = is_float_of(w);
    assert forall|k: int| 0 <= k < last implies !p(#[trigger] changed.floating[k]) by {
        assert(!(ws.tree.windows().contains(w) && ws.floats(w)));
        if p(changed.floating[k]) {
            assert(float_ids(ws.floating)[k] == w);
        }
    }
    assert(is_first_where(changed.floating, p, last));
    lemma_first_where(changed.floating, p, last);
    assert(changed.float_rect(w) == Some(place));
    let s = wm.with_ws(wm.active_idx(), changed).laid_out();
    let after = wm.float_switched();
    let e = s.effects.len() as int;
    assert(after.effects[e] == (Effect::Move { id: w, x: place.x, y: place.y }));
    assert(after.effects[e + 1] == (Effect::Resize {
        id: w,
        width: place.width,
        height: place.height,
    }));
}

/// An overlay that is laid over a monitor gives the focus to the window that had it there, or else to
/// its first tile.
pub proof fn law_overlay_gets_focus(wm: Wm, name: Seq<char>, idx: usize)
    requires
        in_one_place(wm.workspaces),
        wm.focused_monitor < wm.monitors.len() <= usize::MAX,
        wm.workspaces.len() <= usize::MAX,
        idx < wm.workspaces.len(),
        wm.workspaces[idx as int].id == WsId::Special(name),
        forall|j: int| 0 <= j < idx ==> (#[trigger] wm.workspaces[j]).id != WsId::Special(name),
        wm.special_on(wm.focused_monitor) is None,
        wm.specials.len() <= wm.monitors.len(),
    ensures
        ({
            let now = wm.special_toggled(name).workspaces[idx as int];
            let ws = wm.workspaces[idx as int];
            let tiles = wm.tiles(
                idx,
                overlay_rect(wm.rect_on(wm.focused_monitor), wm.overlay_named(name)),
            );
            &&& (ws.focused matches Some(w) && ws.holds(w)) ==> now.focused == ws.focused
            &&& ws.focused is None && tiles.len() > 0 ==> now.focused == Some(tiles[0].0)
        }),
{
    let id = WsId::Special(name);
    assert(is_first_where(wm.workspaces, is_named(id), idx as int));
    lemma_first_where(wm.workspaces, is_named(id), idx as int);
    let mi = wm.focused_monitor;
    let bare = wm.with_workspace(id).specials_padded();
    assert(bare.special_dismissed(mi) == bare);
    let shown = Wm {
        specials: bare.specials.update(mi as int, Some(idx)),
        workspaces: bare.workspaces.update(
            idx as int,
            Ws { last_monitor: Some(mi), ..bare.workspaces[idx as int] },
        ),
        ..bare
    }.visibility_synced();
    let ws = shown.workspaces[idx as int];
    assert forall|i: int| 0 <= i < wm.workspaces.len() implies (
    #[trigger] shown.workspaces[i]).tree == wm.workspaces[i].tree && shown.workspaces[i].floating
        == wm.workspaces[i].floating by {}
    assert(in_one_place(shown.workspaces)) by {
        assert forall|i: int| 0 <= i < shown.workspaces.len() implies tidy(
            #[trigger] shown.workspaces[i],
        ) by {
            assert(tidy(wm.workspaces[i]));
        }
        assert forall|i: int, j: int, w: WindowId|
            0 <= i < j < shown.workspaces.len() implies !(#[trigger] shown.workspaces[i].holds(w)
            && #[trigger] shown.workspaces[j].holds(w)) by {
            assert(!(wm.workspaces[i].holds(w) && wm.workspaces[j].holds(w)));
        }
    }
    assert(shown.rect_on(mi) == wm.rect_on(mi));
    assert(shown.overlay_named(name) == wm.overlay_named(name));
    assert(shown.gaps_of(idx) == wm.gaps_of(idx));
    let screen = overlay_rect(shown.rect_on(mi), shown.overlay_named(name));
    let tiles = shown.tiles(idx, screen);
    let more = crate::wm::effects::shows_above_of(tiles) + crate::wm::effects::shows_above_of(
        float_geometries(ws.floating),
    );
    let told = shown.did(more);
    assert(wm.special_toggled(name) == bare.special_shown(mi, idx, name));
    if tiles.len() > 0 {
        let (inner, outer) = shown.gaps_of(idx);
        assert(tidy(ws));
        law_every_window_placed(ws.tree, screen, inner, outer, true);
        let ids = ids_of(tiles);
        assert(ids[0] == tiles[0].0);
        assert(ids.to_multiset().count(tiles[0].0) > 0) by {
            broadcast use vstd::seq_lib::group_to_multiset_ensures;

        }
        assert(ws.tree.windows().contains(tiles[0].0)) by {
            broadcast use vstd::seq_lib::group_to_multiset_ensures;

        }
        assert(ws.holds(tiles[0].0));
        if ws.focused is None {
            law_focused_window_has_focus(told, tiles[0].0, true, idx as int);
        }
    }
    if let Some(w) = ws.focused {
        if ws.holds(w) {
            assert(ws.tree.windows().len() > 0 || ws.floating.len() > 0);
            law_focused_window_has_focus(told, w, true, idx as int);
        }
    }
}

} // verus!
