//! What sending a window to another workspace or monitor does.
use vstd::prelude::*;
use crate::seqs::{differs_from, without};
use crate::wm::admission_laws::law_focus_keeps_floats;
use crate::wm::effects::Effect;
use crate::wm::focus_laws::{law_focused_window_has_focus, lemma_home};
use crate::wm::geometry::{Direction, Rect};
use crate::wm::moving_laws::keeps_off_edge;
use crate::wm::state::Wm;
use crate::wm::state_laws::seated;
use crate::wm::stepping_laws::lemma_ring;
use crate::wm::window::WindowId;
use crate::wm::window_laws::{keeps_windows, law_focus_moves_no_window, lemma_kept_in_one_place};
use crate::wm::workspace::{Ws, WsId};
use crate::wm::workspace_laws::{in_one_place, law_moved_window_is_in_one_place};

verus! {

/// Whether the one change between some workspaces is that a window went to one of
/// them: it is there and on no other, has the focus there, and every other window
/// is where it was. Workspaces keep their names.
pub open spec fn is_carried(was: Seq<Ws>, now: Seq<Ws>, w: WindowId, to: int) -> bool {
    &&& 0 <= to < now.len()
    &&& was.len() <= now.len()
    &&& now[to].holds(w)
    &&& now[to].focused == Some(w)
    &&& forall|i: int| 0 <= i < now.len() && i != to ==> !(#[trigger] now[i]).holds(w)
    &&& forall|i: int, x: WindowId|
        0 <= i < was.len() && x != w ==> (#[trigger] now[i].holds(x) <==> was[i].holds(x))
    &&& forall|i: int| 0 <= i < was.len() ==> (#[trigger] now[i]).id == was[i].id
}

/// Whether a window floats on a workspace fifty points inside a screen, 800 points
/// wide and 600 high.
pub open spec fn floats_inside(ws: Ws, w: WindowId, screen: Rect) -> bool {
    exists|k: int|
        0 <= k < ws.floating.len() && (#[trigger] ws.floating[k]).id == w && {
            let g = ws.floating[k].geometry;
            &&& g.x == screen.x + 50_000
            &&& g.y == screen.y + 50_000
            &&& g.width == 800_000
            &&& g.height == 600_000
        }
}

/// A screen on which a window can be put fifty points inside.
pub open spec fn has_inside(screen: Rect) -> bool {
    screen.x + 50_000 <= i64::MAX && screen.y + 50_000 <= i64::MAX
}

/// A window that was moved is tiled where it was tiled, and else floats inside the
/// screen to which it went.
proof fn lemma_moved_shape(wm: Wm, w: WindowId, from: usize, to: usize, screen: Rect)
    requires
        in_one_place(wm.workspaces),
        from < wm.workspaces.len(),
        to < wm.workspaces.len(),
        from != to,
        wm.workspaces[from as int].holds(w),
    ensures
        ({
            let now = wm.moved(w, from, to, screen).workspaces;
            &&& is_carried(wm.workspaces, now, w, to as int)
            &&& in_one_place(now)
            &&& now.len() == wm.workspaces.len()
            &&& now[to as int].floats(w) == wm.workspaces[from as int].floats(w)
            &&& wm.workspaces[from as int].floats(w) && has_inside(screen) ==> floats_inside(
                now[to as int],
                w,
                screen,
            )
        }),
{
    law_moved_window_is_in_one_place(wm, w, from, to, screen);
    let was = wm.workspaces;
    let now = wm.moved(w, from, to, screen).workspaces;
    assert(!(was[from as int].holds(w) && was[to as int].holds(w)));
    let there = was[to as int];
    crate::wm::workspace_laws::law_placed_window_is_there(
        there,
        w,
        if was[from as int].floats(w) {
            Some(crate::wm::switching::arrival_rect(screen))
        } else {
            None
        },
        screen,
    );
    if was[from as int].floats(w) && has_inside(screen) {
        let k = there.floating.len() as int;
        assert(now[to as int].floating[k].id == w);
    }
}

/// Giving the window that was carried the focus leaves it where it is.
proof fn lemma_carried_focus(was: Seq<Ws>, wm: Wm, w: WindowId, to: int, screen: Rect)
    requires
        seated(wm),
        in_one_place(wm.workspaces),
        is_carried(was, wm.workspaces, w, to),
    ensures
        ({
            let after = wm.focused_on(w, true);
            &&& is_carried(was, after.workspaces, w, to)
            &&& after.monitors == wm.monitors
            &&& after.focused_monitor == wm.focused_monitor
            &&& after.workspaces[to].floats(w) == wm.workspaces[to].floats(w)
            &&& floats_inside(wm.workspaces[to], w, screen) ==> floats_inside(
                after.workspaces[to],
                w,
                screen,
            )
        }),
{
    let after = wm.focused_on(w, true);
    law_focused_window_has_focus(wm, w, true, to);
    law_focus_moves_no_window(wm, w, true);
    law_focus_keeps_floats(wm, w, true);
    let now = after.workspaces;
    assert(now[to].holds(w) <==> wm.workspaces[to].holds(w));
    assert(now[to].floats(w) <==> wm.workspaces[to].floats(w));
    assert forall|i: int| 0 <= i < now.len() && i != to implies !(#[trigger] now[i]).holds(w) by {
        assert(now[i].holds(w) <==> wm.workspaces[i].holds(w));
    }
    assert forall|i: int, x: WindowId| 0 <= i < was.len() && x != w implies (
    #[trigger] now[i].holds(x) <==> was[i].holds(x)) by {
        assert(now[i].holds(x) <==> wm.workspaces[i].holds(x));
        assert(wm.workspaces[i].holds(x) <==> was[i].holds(x));
    }
    assert forall|i: int| 0 <= i < was.len() implies (#[trigger] now[i]).id == was[i].id by {
        assert(wm.workspaces[i].id == was[i].id);
    }
    if floats_inside(wm.workspaces[to], w, screen) {
        let k = choose|k: int|
            0 <= k < wm.workspaces[to].floating.len() && (
            #[trigger] wm.workspaces[to].floating[k]).id == w && {
                let g = wm.workspaces[to].floating[k].geometry;
                &&& g.x == screen.x + 50_000
                &&& g.y == screen.y + 50_000
                &&& g.width == 800_000
                &&& g.height == 600_000
            };
        let f = wm.workspaces[to].floating[k];
        assert(wm.workspaces[to].floating.contains(f));
        assert(now[to].floating.contains(f));
        let l = choose|l: int| 0 <= l < now[to].floating.len() && now[to].floating[l] == f;
        assert(now[to].floating[l].id == w);
    }
}

/// The window that has the focus: that of an overlay on the focused monitor, if it
/// has one, and else that of the active workspace.
pub proof fn law_overlay_has_focus_first(wm: Wm, idx: usize)
    ensures
        wm.focused_monitor < wm.specials.len() && wm.specials[wm.focused_monitor as int] == Some(
            idx,
        ) && wm.workspaces[idx as int].focused is Some ==> wm.effective_focused()
            == wm.workspaces[idx as int].focused,
        wm.focused_monitor >= wm.specials.len() || wm.specials[wm.focused_monitor as int] is None
            ==> wm.effective_focused() == wm.workspaces[wm.active_idx() as int].focused,
{
}

/// Sending the focused window to another monitor carries it to the workspace that
/// this monitor shows; the monitor and the window get the focus. A floating window
/// floats inside that screen.
pub proof fn law_window_goes_to_monitor(wm: Wm, mi: usize, w: WindowId, from: usize)
    requires
        seated(wm),
        in_one_place(wm.workspaces),
        mi < wm.monitors.len(),
        wm.effective_focused() == Some(w),
        from < wm.workspaces.len(),
        wm.workspaces[from as int].holds(w),
        from != wm.monitors[mi as int].active_workspace,
    ensures
        ({
            let after = wm.moved_to_monitor(mi);
            let to = wm.monitors[mi as int].active_workspace as int;
            let screen = wm.rect_on(mi);
            &&& is_carried(wm.workspaces, after.workspaces, w, to)
            &&& after.monitors == wm.monitors
            &&& after.focused_monitor == mi
            &&& after.workspaces[to].floats(w) == wm.workspaces[from as int].floats(w)
            &&& wm.workspaces[from as int].floats(w) && has_inside(screen) ==> floats_inside(
                after.workspaces[to],
                w,
                screen,
            )
        }),
{
    let to = wm.monitors[mi as int].active_workspace;
    let screen = wm.rect_on(mi);
    lemma_home(wm, w, from as int);
    lemma_moved_shape(wm, w, from, to, screen);
    let moved = wm.moved(w, from, to, screen);
    let ws = wm.workspaces[from as int];
    let left = wm.with_ws(from, ws.taken(w)).laid_out();
    let there = left.with_ws(
        to,
        left.workspaces[to as int].placed(
            w,
            if ws.floats(w) {
                Some(crate::wm::switching::arrival_rect(screen))
            } else {
                None
            },
            screen,
        ),
    );
    let s = Wm {
        focused_monitor: mi,
        ..there.did(crate::wm::effects::fits_of(there.tiles(to, screen)))
    };
    assert(s.workspaces == moved.workspaces);
    assert(seated(s));
    lemma_carried_focus(wm.workspaces, s, w, to as int, screen);
}

/// A focused window at the left or right edge of its screen, if it is in no stack,
/// goes to the monitor beside it: to the next one on the right and to the one before
/// on the left.
pub proof fn law_swap_at_edge_goes_to_monitor(wm: Wm, direction: Direction, w: WindowId)
    requires
        seated(wm),
        in_one_place(wm.workspaces),
        wm.special_on(wm.focused_monitor) is None,
        wm.active().focused == Some(w),
        wm.active().tree.windows().contains(w),
        !wm.active().tree.in_stack(w),
        direction is Left || direction is Right,
        ({
            let tiles = wm.focus_tiles(wm.active_idx(), wm.focused_rect());
            let r = crate::wm::adjacency::rect_of(tiles, w);
            &&& r is Some
            &&& !keeps_off_edge(r->0, wm.focused_rect(), direction, wm.gap_outer + 2000)
        }),
    ensures
        ({
            let after = wm.swap_moved(direction);
            let mi = if direction is Right {
                wm.focused_monitor + 1
            } else {
                wm.focused_monitor - 1
            };
            if 0 <= mi < wm.monitors.len() {
                wm.monitors[mi].active_workspace != wm.active_idx() ==> {
                    &&& is_carried(
                        wm.workspaces,
                        after.workspaces,
                        w,
                        wm.monitors[mi].active_workspace as int,
                    )
                    &&& after.monitors == wm.monitors
                    &&& after.focused_monitor == mi
                }
            } else {
                after == wm
            }
        }),
{
    crate::wm::tree_laws::law_outside_stack(wm.active().tree, w);
    let mi = if direction is Right {
        wm.focused_monitor + 1
    } else {
        wm.focused_monitor - 1
    };
    if 0 <= mi < wm.monitors.len() && wm.monitors[mi].active_workspace != wm.active_idx() {
        law_window_goes_to_monitor(wm, mi as usize, w, wm.active_idx());
    }
}

/// Sending the focused window to the next monitor carries it to the one behind the
/// focused one, and to the first behind the last; to the previous one likewise.
pub proof fn law_window_goes_to_monitor_beside(wm: Wm, forward: bool, w: WindowId, from: usize)
    requires
        seated(wm),
        in_one_place(wm.workspaces),
        wm.monitors.len() > 1,
        wm.effective_focused() == Some(w),
        from < wm.workspaces.len(),
        wm.workspaces[from as int].holds(w),
        ({
            let n = wm.monitors.len() as int;
            let i = wm.focused_monitor as int;
            from != wm.monitors[if forward {
                (i + 1) % n
            } else {
                (i + n - 1) % n
            }].active_workspace
        }),
    ensures
        ({
            let n = wm.monitors.len() as int;
            let i = wm.focused_monitor as int;
            let mi = if forward {
                (i + 1) % n
            } else {
                (i + n - 1) % n
            };
            let after = wm.moved_to_monitor_beside(forward);
            &&& after.focused_monitor == mi
            &&& is_carried(
                wm.workspaces,
                after.workspaces,
                w,
                wm.monitors[mi].active_workspace as int,
            )
        }),
{
    let n = wm.monitors.len() as int;
    let i = wm.focused_monitor as int;
    let k = if forward {
        (i + 1) % n
    } else {
        (i + n - 1) % n
    };
    lemma_ring(n, i);
    law_window_goes_to_monitor(wm, k as usize, w, from);
}

// --- To a workspace ---

/// Whether a window was hidden since some earlier state.
pub open spec fn hidden_since(after: Wm, before: Wm, w: WindowId) -> bool {
    exists|i: int|
        before.effects.len() <= i < after.effects.len() && (
        #[trigger] after.effects[i] matches Effect::Hide { id, .. } && id == w)
}

/// The same windows on workspaces of the same names are in one place.
proof fn lemma_same_windows(was: Seq<Ws>, now: Seq<Ws>)
    requires
        in_one_place(was),
        now.len() == was.len(),
        forall|i: int|
            0 <= i < was.len() ==> (#[trigger] now[i]).tree == was[i].tree && now[i].floating
                == was[i].floating && now[i].id == was[i].id && now[i].focused == was[i].focused,
    ensures
        in_one_place(now),
        keeps_windows(was, now),
        forall|w: WindowId, to: int, first: Seq<Ws>| #[trigger]
            is_carried(first, was, w, to) ==> is_carried(first, now, w, to),
{
    crate::wm::window_laws::lemma_same_content(was, now);
    lemma_kept_in_one_place(was, now);
    assert forall|w: WindowId, to: int, first: Seq<Ws>| #[trigger]
        is_carried(first, was, w, to) implies is_carried(first, now, w, to) by {
        assert(now[to].holds(w) <==> was[to].holds(w));
        assert forall|i: int| 0 <= i < now.len() && i != to implies !(#[trigger] now[i]).holds(
            w,
        ) by {
            assert(now[i].holds(w) <==> was[i].holds(w));
        }
        assert forall|i: int, x: WindowId| 0 <= i < first.len() && x != w implies (
        #[trigger] now[i].holds(x) <==> first[i].holds(x)) by {
            assert(now[i].holds(x) <==> was[i].holds(x));
            assert(was[i].holds(x) <==> first[i].holds(x));
        }
        assert forall|i: int| 0 <= i < first.len() implies (#[trigger] now[i]).id
            == first[i].id by {
            assert(was[i].id == first[i].id);
        }
    }
}

/// Sending the focused window to a workspace of some name carries it there, and the
/// monitors go on showing what they showed. Where that workspace cannot be seen, the
/// window is hidden.
pub proof fn law_window_goes_to_workspace(wm: Wm, id: WsId, w: WindowId, from: usize, to: usize)
    requires
        seated(wm),
        in_one_place(wm.workspaces),
        wm.effective_focused() == Some(w),
        from < wm.workspaces.len(),
        wm.workspaces[from as int].holds(w),
        to < wm.workspaces.len(),
        wm.workspaces[to as int].id == id,
        forall|j: int| 0 <= j < to ==> (#[trigger] wm.workspaces[j]).id != id,
        from != to,
    ensures
        ({
            let after = wm.moved_to_workspace(id);
            &&& is_carried(wm.workspaces, after.workspaces, w, to as int)
            &&& after.monitors == wm.monitors
            &&& after.focused_monitor == wm.focused_monitor
            &&& after.workspaces[to as int].floats(w) == wm.workspaces[from as int].floats(w)
            &&& !(exists|mi: int|
                0 <= mi < wm.monitors.len() && (#[trigger] wm.monitors[mi]).active_workspace == to)
                && !wm.specials.contains(Some(to)) ==> hidden_since(after, wm, w)
        }),
{
    let p = crate::wm::workspace::is_named(id);
    assert(crate::seqs::is_first_where(wm.workspaces, p, to as int));
    crate::seqs::lemma_first_where(wm.workspaces, p, to as int);
    let s = wm.with_workspace(id);
    assert(s == wm);
    lemma_home(wm, w, from as int);
    let bare = s.special_left(s.focused_monitor, from, w);
    assert(bare.workspaces.len() == wm.workspaces.len());
    assert forall|i: int| 0 <= i < wm.workspaces.len() implies (#[trigger] bare.workspaces[i]).tree
        == wm.workspaces[i].tree && bare.workspaces[i].floating == wm.workspaces[i].floating
        && bare.workspaces[i].id == wm.workspaces[i].id && bare.workspaces[i].focused
        == wm.workspaces[i].focused by {}
    lemma_same_windows(wm.workspaces, bare.workspaces);
    assert(bare.workspaces[from as int].holds(w) <==> wm.workspaces[from as int].holds(w));
    assert(bare.workspaces[from as int].floats(w) <==> wm.workspaces[from as int].floats(w));
    let mi = bare.target_monitor(to);
    let screen = bare.rect_on(mi);
    lemma_moved_shape(bare, w, from, to, screen);
    let moved = bare.moved(w, from, to, screen);
    let floats = bare.workspaces[from as int].floats(w);
    let after = wm.moved_to_workspace(id);
    assert(after == moved.sent_off(w, to, mi, floats));
    lemma_sent_off(moved, w, to, mi, floats);
    let now = after.workspaces;
    assert forall|i: int| 0 <= i < wm.workspaces.len() implies (#[trigger] now[i]).tree
        == moved.workspaces[i].tree && now[i].floating == moved.workspaces[i].floating && now[i].id
        == moved.workspaces[i].id && now[i].focused == moved.workspaces[i].focused by {}
    lemma_same_windows(moved.workspaces, now);
    lemma_carried_from(wm.workspaces, bare.workspaces, now, w, to as int);
    assert(now[to as int].floats(w) <==> moved.workspaces[to as int].floats(w));
    if !(exists|mi: int|
        0 <= mi < wm.monitors.len() && (#[trigger] wm.monitors[mi]).active_workspace == to)
        && !wm.specials.contains(Some(to)) {
        crate::seqs::lemma_first_where_found(moved.monitors, crate::wm::monitor::shows(to));
        if moved.showing(to) is Some {
            let m = moved.showing(to)->0;
            assert(crate::wm::monitor::shows(to)(moved.monitors[m as int]));
            assert(wm.monitors[m as int].active_workspace == to);
        }
        if moved.specials.contains(Some(to)) {
            let m = choose|m: int| 0 <= m < moved.specials.len() && moved.specials[m] == Some(to);
            assert(wm.specials[m] == Some(to));
        }
        let k = choose|k: int|
            moved.effects.len() <= k < after.effects.len() && (
            #[trigger] after.effects[k] matches Effect::Hide { id, .. } && id == w);
        assert(wm.effects.len() <= moved.effects.len());
        assert(after.effects[k] matches Effect::Hide { id, .. } && id == w);
    }
}

/// A window that was carried from workspaces with the same windows was carried.
proof fn lemma_carried_from(
    first: Seq<Ws>,
    was: Seq<Ws>,
    now: Seq<Ws>,
    w: WindowId,
    to: int,
)
    requires
        keeps_windows(first, was),
        first.len() == was.len(),
        forall|i: int| 0 <= i < first.len() ==> (#[trigger] was[i]).id == first[i].id,
        is_carried(was, now, w, to),
    ensures
        is_carried(first, now, w, to),
{
    assert forall|i: int, x: WindowId| 0 <= i < first.len() && x != w implies (
    #[trigger] now[i].holds(x) <==> first[i].holds(x)) by {
        assert(now[i].holds(x) <==> was[i].holds(x));
        assert(was[i].holds(x) <==> first[i].holds(x));
    }
    assert forall|i: int| 0 <= i < first.len() implies (#[trigger] now[i]).id == first[i].id by {
        assert(now[i].id == was[i].id);
    }
}

/// A window that is sent off stays where it was put, and is hidden where that cannot
/// be seen.
proof fn lemma_sent_off(wm: Wm, w: WindowId, to: usize, mi: usize, floats: bool)
    requires
        to < wm.workspaces.len(),
    ensures
        ({
            let after = wm.sent_off(w, to, mi, floats);
            &&& after.monitors == wm.monitors
            &&& after.focused_monitor == wm.focused_monitor
            &&& after.workspaces == wm.workspaces.update(
                to as int,
                Ws {
                    last_monitor: Some(mi),
                    last_display_id: Some(wm.monitors[mi as int].id),
                    ..wm.workspaces[to as int]
                },
            )
            &&& !wm.is_visible(to) ==> hidden_since(after, wm, w)
        }),
{
    let after = wm.sent_off(w, to, mi, floats);
    let kept = wm.with_ws(
        to,
        Ws {
            last_monitor: Some(mi),
            last_display_id: Some(wm.monitors[mi as int].id),
            ..wm.workspaces[to as int]
        },
    );
    assert(kept.is_visible(to) == wm.is_visible(to));
    if !wm.is_visible(to) {
        let seen = kept.did(seq![kept.hide_of(w)]);
        let k = wm.effects.len() as int;
        assert(seen.effects[k] == kept.hide_of(w));
        assert(after.effects[k] == seen.effects[k]);
        assert(after.effects[k] matches Effect::Hide { id, .. } && id == w);
    }
}

/// Sending the focused window to a special workspace carries it there.
pub proof fn law_window_goes_to_special(wm: Wm, name: Seq<char>, w: WindowId, to: usize)
    requires
        seated(wm),
        in_one_place(wm.workspaces),
        wm.active().focused == Some(w),
        wm.active().holds(w),
        to < wm.workspaces.len(),
        wm.workspaces[to as int].id == WsId::Special(name),
        forall|j: int| 0 <= j < to ==> (#[trigger] wm.workspaces[j]).id != WsId::Special(name),
        to != wm.active_idx(),
    ensures
        ({
            let after = wm.moved_to_special(name);
            &&& after.workspaces[to as int].holds(w)
            &&& after.workspaces[to as int].floats(w) == wm.active().floats(w)
            &&& forall|i: int|
                0 <= i < after.workspaces.len() && i != to ==> !(
                #[trigger] after.workspaces[i]).holds(w)
            &&& forall|i: int, x: WindowId|
                0 <= i < wm.workspaces.len() && x != w ==> (#[trigger] after.workspaces[i].holds(x)
                    <==> wm.workspaces[i].holds(x))
            &&& after.monitors == wm.monitors
            &&& after.focused_monitor == wm.focused_monitor
        }),
{
    let id = WsId::Special(name);
    let p = crate::wm::workspace::is_named(id);
    assert(crate::seqs::is_first_where(wm.workspaces, p, to as int));
    crate::seqs::lemma_first_where(wm.workspaces, p, to as int);
    let s = wm.with_workspace(id);
    assert(s == wm);
    let from = wm.active_idx();
    let screen = s.focused_rect();
    lemma_moved_shape(wm, w, from, to, screen);
    let there = s.moved(w, from, to, screen).specials_padded();
    let seen = there.specials[there.focused_monitor as int] == Some(to);
    let done = there.did(
        if seen {
            crate::wm::effects::lifts_of(there.workspaces[to as int].floating)
        } else {
            seq![there.hide_of(w)]
        },
    ).laid_out();
    let after = wm.moved_to_special(name);
    assert(after == done.focus_active());
    assert(done.workspaces == wm.moved(w, from, to, screen).workspaces);
    assert(seated(done));
    let now = after.workspaces;
    if let Some(x) = done.active().focused {
        crate::wm::state_laws::law_focus_moves_no_workspace(done, x, true);
        law_focus_moves_no_window(done, x, true);
        assert(now[to as int].holds(w) <==> done.workspaces[to as int].holds(w));
        assert(now[to as int].floats(w) <==> done.workspaces[to as int].floats(w));
        assert forall|i: int| 0 <= i < now.len() && i != to implies !(#[trigger] now[i]).holds(
            w,
        ) by {
            assert(now[i].holds(w) <==> done.workspaces[i].holds(w));
        }
        assert forall|i: int, x: WindowId| 0 <= i < wm.workspaces.len() && x != w implies (
        #[trigger] now[i].holds(x) <==> wm.workspaces[i].holds(x)) by {
            assert(now[i].holds(x) <==> done.workspaces[i].holds(x));
            assert(done.workspaces[i].holds(x) <==> wm.workspaces[i].holds(x));
        }
    }
}

// --- Where workspaces go ---

/// A workspace that no monitor shows comes to the monitor that it prefers, if that
/// one is connected. Else, if it has windows, it comes to the monitor that showed it
/// last, and else to the focused one.
pub proof fn law_workspace_comes_to_its_monitor(wm: Wm, id: WsId, idx: usize)
    requires
        seated(wm),
        idx < wm.workspaces.len(),
        wm.workspaces[idx as int].id == id,
        forall|j: int| 0 <= j < idx ==> (#[trigger] wm.workspaces[j]).id != id,
        forall|mi: int|
            0 <= mi < wm.monitors.len() ==> (#[trigger] wm.monitors[mi]).active_workspace != idx,
    ensures
        ({
            let after = wm.switched(id);
            let ws = wm.workspaces[idx as int];
            let mi = match wm.preferred_monitor(idx) {
                Some(m) => m,
                None => if ws.window_ids().len() > 0 && ws.last_monitor is Some
                    && ws.last_monitor->0 < wm.monitors.len() {
                    ws.last_monitor->0
                } else {
                    wm.focused_monitor
                },
            };
            ws.tree.wf() ==> {
                &&& after.focused_monitor == mi
                &&& after.active_idx() == idx
                &&& after.workspaces[idx as int].last_monitor == Some(mi)
                &&& forall|m: int|
                    0 <= m < wm.monitors.len() && m != mi ==> #[trigger] after.monitors[m]
                        == wm.monitors[m]
            }
        }),
{
    let p = crate::wm::workspace::is_named(id);
    assert(crate::seqs::is_first_where(wm.workspaces, p, idx as int));
    crate::seqs::lemma_first_where(wm.workspaces, p, idx as int);
    let s = wm.with_workspace(id);
    assert(s == wm);
    let quiet = s.silenced();
    crate::seqs::lemma_first_where_found(quiet.monitors, crate::wm::monitor::shows(idx));
    if quiet.showing(idx) is Some {
        let m = quiet.showing(idx)->0;
        assert(crate::wm::monitor::shows(idx)(quiet.monitors[m as int]));
        assert(wm.monitors[m as int].active_workspace != idx);
    }
    let ws = wm.workspaces[idx as int];
    if ws.tree.wf() {
        crate::wm::tree_laws::law_empty_iff_no_windows(ws.tree);
        assert(ws.has_no_windows() <==> ws.window_ids().len() == 0);
    }
    crate::wm::state_laws::lemma_monitor_for(quiet, idx);
}

/// The monitor that a workspace prefers is the first one with the number that its
/// definition gives; without one it prefers none.
pub proof fn law_preferred_monitor(wm: Wm, idx: usize, k: int, m: int)
    ensures
        (forall|j: int|
            0 <= j < wm.defs.len() ==> (#[trigger] wm.defs[j]).id != wm.workspaces[idx as int].id)
            ==> wm.preferred_monitor(idx) is None,
        ({
            &&& 0 <= k < wm.defs.len()
            &&& wm.defs[k].id == wm.workspaces[idx as int].id
            &&& forall|j: int|
                0 <= j < k ==> (#[trigger] wm.defs[j]).id != wm.workspaces[idx as int].id
            &&& wm.defs[k].prefs.monitor is Some
            &&& 0 <= m < wm.monitors.len() <= usize::MAX
            &&& wm.monitors[m].id == wm.defs[k].prefs.monitor->0.display_id
            &&& forall|j: int|
                0 <= j < m ==> (#[trigger] wm.monitors[j]).id
                    != wm.defs[k].prefs.monitor->0.display_id
        }) ==> wm.preferred_monitor(idx) == Some(m as usize),
{
    let name = wm.workspaces[idx as int].id;
    let p = crate::wm::state::defines(name);
    crate::seqs::lemma_first_where_found(wm.defs, p);
    if let Some(i) = crate::seqs::first_where(wm.defs, p) {
        assert(p(wm.defs[i]));
    }
    if ({
        &&& 0 <= k < wm.defs.len()
        &&& wm.defs[k].id == name
        &&& forall|j: int| 0 <= j < k ==> (#[trigger] wm.defs[j]).id != name
        &&& wm.defs[k].prefs.monitor is Some
        &&& 0 <= m < wm.monitors.len() <= usize::MAX
        &&& wm.monitors[m].id == wm.defs[k].prefs.monitor->0.display_id
        &&& forall|j: int|
            0 <= j < m ==> (#[trigger] wm.monitors[j]).id
                != wm.defs[k].prefs.monitor->0.display_id
    }) {
        assert(crate::seqs::is_first_where(wm.defs, p, k));
        crate::seqs::lemma_first_where(wm.defs, p, k);
        let q = crate::wm::monitor::is_display(wm.defs[k].prefs.monitor->0.display_id);
        assert(crate::seqs::is_first_where(wm.monitors, q, m));
        crate::seqs::lemma_first_where(wm.monitors, q, m);
    }
}

/// When a window is taken from the overlay of a monitor, the overlay is put away and its other
/// windows are hidden.
pub proof fn law_left_overlay_is_put_away(wm: Wm, mi: usize, idx: usize, w: WindowId, k: int)
    requires
        mi < wm.specials.len(),
        wm.special_on(mi) == Some(idx),
        idx < wm.workspaces.len(),
        0 <= k < wm.workspaces[idx as int].window_ids().len(),
        wm.workspaces[idx as int].window_ids()[k] != w,
    ensures
        ({
            let after = wm.special_left(mi, idx, w);
            &&& after.specials[mi as int] is None
            &&& hidden_since(after, wm, wm.workspaces[idx as int].window_ids()[k])
        }),
{
    let after = wm.special_left(mi, idx, w);
    let s = Wm { specials: wm.specials.update(mi as int, None), ..wm }.visibility_synced();
    let ids = wm.workspaces[idx as int].window_ids();
    assert(s.workspaces[idx as int].window_ids() == ids);
    let rest = without(ids, w);
    ids.lemma_filter_contains(differs_from(w), k);
    let m = choose|m: int| 0 <= m < rest.len() && rest[m] == ids[k];
    let at = wm.effects.len() + m;
    assert(after.effects[at] == s.hide_of(rest[m]));
}

} // verus!
