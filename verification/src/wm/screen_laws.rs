//! What a screen offers to windows, and where overlays and floating windows lie.
use vstd::prelude::*;
use crate::config::special::{is_overlay_of, Overlay};
use crate::seqs::{first_where, is_first_where, lemma_first_where, lemma_first_where_found};
use crate::wm::adjacency::rect_of;
use crate::wm::geometry::Rect;
use crate::wm::layout_laws::sane;
use crate::wm::resize_laws::lemma_has_rect;
use crate::wm::state::{defines, Wm};
use crate::wm::switching::overlay_rect;
use crate::wm::window::WindowId;
use crate::wm::workspace::{float_ids, is_float_of, FloatingWindow, Ws};
use crate::wm::workspace_laws::tidy;

verus! {

// --- Screens ---

/// Where the system keeps no room at the top of a monitor, windows leave the height of
/// the bar free there: the rectangle for them starts lower by it and ends where it
/// ended. Where the system keeps a point or more, and without a bar, they get all that
/// the system offers.
pub proof fn law_bar_is_kept_free(wm: Wm, mi: usize)
    requires
        mi < wm.monitors.len(),
        sane(wm.monitors[mi as int].usable_frame),
        0 <= wm.bar_height <= wm.monitors[mi as int].usable_frame.height,
    ensures
        ({
            let m = wm.monitors[mi as int];
            let whole = m.usable_frame;
            let r = wm.rect_on(mi);
            let kept = whole.y - m.frame.y;
            &&& r.x == whole.x
            &&& r.width == whole.width
            &&& r.y + r.height == whole.y + whole.height
            &&& r.y == if kept >= 1000 || kept <= -1000 {
                whole.y as int
            } else {
                whole.y + wm.bar_height
            }
        }),
{
}

/// The gaps of a workspace are those that its definition gives, and else those of all.
pub proof fn law_gaps_of_workspace(wm: Wm, idx: usize, k: int)
    ensures
        (forall|j: int|
            0 <= j < wm.defs.len() ==> (#[trigger] wm.defs[j]).id != wm.workspaces[idx as int].id)
            ==> wm.gaps_of(idx) == (wm.gap_inner, wm.gap_outer),
        0 <= k < wm.defs.len() && wm.defs[k].id == wm.workspaces[idx as int].id && (forall|j: int|
            0 <= j < k ==> (#[trigger] wm.defs[j]).id != wm.workspaces[idx as int].id) ==> {
            let (inner, outer) = wm.gaps_of(idx);
            let prefs = wm.defs[k].prefs;
            &&& prefs.gap_inner is Some ==> Some(inner) == prefs.gap_inner
            &&& prefs.gap_inner is None ==> inner == wm.gap_inner
            &&& prefs.gap_outer is Some ==> Some(outer) == prefs.gap_outer
            &&& prefs.gap_outer is None ==> outer == wm.gap_outer
        },
{
    let name = wm.workspaces[idx as int].id;
    let p = defines(name);
    lemma_first_where_found(wm.defs, p);
    if let Some(i) = first_where(wm.defs, p) {
        assert(p(wm.defs[i]));
    }
    if 0 <= k < wm.defs.len() && wm.defs[k].id == name && (forall|j: int|
        0 <= j < k ==> (#[trigger] wm.defs[j]).id != name) {
        assert(is_first_where(wm.defs, p, k));
        lemma_first_where(wm.defs, p, k);
    }
}

// --- Overlays ---

/// An overlay takes its thousandths of the width and of the height of a screen, rounded
/// down. It lies in the middle from left to right, and at the top, at the bottom or in
/// the middle from top to bottom as its position says.
pub proof fn law_overlay_lies_on_screen(screen: Rect, overlay: Overlay)
    requires
        sane(screen),
        0 <= overlay.width <= 1000,
        0 <= overlay.height <= 1000,
    ensures
        ({
            let r = overlay_rect(screen, overlay);
            &&& r.width * 1000 <= screen.width * overlay.width < (r.width + 1) * 1000
            &&& r.height * 1000 <= screen.height * overlay.height < (r.height + 1) * 1000
            &&& 0 <= (2 * screen.x + screen.width) - (2 * r.x + r.width) <= 1
            &&& overlay.position == "top"@ ==> r.y == screen.y
            &&& overlay.position == "bottom"@ ==> r.y + r.height == screen.y + screen.height
            &&& overlay.position != "top"@ && overlay.position != "bottom"@ ==> 0 <= (2 * screen.y
                + screen.height) - (2 * r.y + r.height) <= 1
            &&& screen.x <= r.x && r.x + r.width <= screen.x + screen.width
            &&& screen.y <= r.y && r.y + r.height <= screen.y + screen.height
        }),
{
    let a = screen.width as int;
    let b = overlay.width as int;
    let c = screen.height as int;
    let d = overlay.height as int;
    assert(0 <= a * b <= a * 1000) by (nonlinear_arith)
        requires
            0 <= a,
            0 <= b <= 1000,
    ;
    assert(0 <= c * d <= c * 1000) by (nonlinear_arith)
        requires
            0 <= c,
            0 <= d <= 1000,
    ;
    reveal_strlit("top");
    reveal_strlit("bottom");
    assert("top"@.len() != "bottom"@.len());
}

/// The overlay of a special workspace is the first one of its name; without one it is in
/// the middle and takes seven tenths of each side.
pub proof fn law_overlay_of_name(wm: Wm, name: Seq<char>, k: int)
    ensures
        0 <= k < wm.overlays.len() && wm.overlays[k].name == name && (forall|j: int|
            0 <= j < k ==> (#[trigger] wm.overlays[j]).name != name) ==> wm.overlay_named(name)
            == wm.overlays[k],
        (forall|j: int| 0 <= j < wm.overlays.len() ==> (#[trigger] wm.overlays[j]).name != name)
            ==> {
            let o = wm.overlay_named(name);
            o.name == name && o.position == "center"@ && o.width == 700 && o.height == 700
        },
{
    let p = is_overlay_of(name);
    lemma_first_where_found(wm.overlays, p);
    if let Some(i) = first_where(wm.overlays, p) {
        assert(p(wm.overlays[i]));
    }
    if 0 <= k < wm.overlays.len() && wm.overlays[k].name == name && (forall|j: int|
        0 <= j < k ==> (#[trigger] wm.overlays[j]).name != name) {
        assert(is_first_where(wm.overlays, p, k));
        lemma_first_where(wm.overlays, p, k);
    }
}

// --- Floating windows ---

/// A tiled window that is let float floats on top of the others where its tile would be
/// without gaps; the other floating windows stay.
pub proof fn law_tile_floats_where_it_was(ws: Ws, w: WindowId, screen: Rect)
    requires
        tidy(ws),
        ws.tree.windows().contains(w),
    ensures
        ({
            let after = ws.float_toggled(w, screen);
            &&& rect_of(ws.tree.geometries(screen, 0, 0, true), w) is Some
            &&& after.floating == ws.floating.push(
                (FloatingWindow {
                    id: w,
                    geometry: rect_of(ws.tree.geometries(screen, 0, 0, true), w)->0,
                }),
            )
            &&& after.tree == ws.tree.removed(w)
            &&& after.focused == ws.focused
        }),
{
    assert(!(ws.tree.windows().contains(w) && ws.floats(w)));
    lemma_first_where_found(ws.floating, is_float_of(w));
    if let Some(i) = first_where(ws.floating, is_float_of(w)) {
        assert(is_float_of(w)(ws.floating[i]));
        assert(float_ids(ws.floating)[i] == w);
    }
    lemma_has_rect(ws.tree, w, screen, 0, 0, true);
}

/// A floating window that is let tile enters the tree next to the focused window and is
/// no longer among the floating ones; the others keep their order.
pub proof fn law_float_tiles_beside_focus(ws: Ws, w: WindowId, screen: Rect, i: int)
    requires
        tidy(ws),
        0 <= i < ws.floating.len(),
        ws.floating[i].id == w,
    ensures
        ({
            let after = ws.float_toggled(w, screen);
            &&& after.tree == ws.tree.inserted(w, ws.focused, screen)
            &&& after.floating.len() == ws.floating.len() - 1
            &&& forall|k: int| 0 <= k < i ==> #[trigger] after.floating[k] == ws.floating[k]
            &&& forall|k: int|
                i <= k < after.floating.len() ==> #[trigger] after.floating[k] == ws.floating[k + 1]
        }),
{
    let p = is_float_of(w);
    assert forall|k: int| 0 <= k < i implies !p(#[trigger] ws.floating[k]) by {
        assert(float_ids(ws.floating)[k] != float_ids(ws.floating)[i]);
    }
    assert(is_first_where(ws.floating, p, i));
    lemma_first_where(ws.floating, p, i);
}

} // verus!
