//! Where windows are hidden.
use vstd::prelude::*;
use crate::seqs::{is_first_where, lemma_first_where};
use crate::wm::effects::{leftmost, rightmost, spot_for, Effect};
use crate::wm::focus_laws::lemma_home;
use crate::wm::monitor::{is_display, Monitor};
use crate::wm::state::Wm;
use crate::wm::window::{window_of, WindowId};
use crate::wm::workspace_laws::in_one_place;

verus! {

proof fn lemma_leftmost(monitors: Seq<Monitor>, k: int)
    requires
        0 <= k < monitors.len(),
        forall|j: int|
            0 <= j < monitors.len() ==> monitors[k].frame.x <= (#[trigger] monitors[j]).frame.x,
    ensures
        leftmost(monitors) == monitors[k].frame.x,
    decreases monitors.len(),
{
    let rest = monitors.drop_last();
    if k < rest.len() {
        assert(rest[k] == monitors[k]);
        assert forall|j: int| 0 <= j < rest.len() implies rest[k].frame.x <= (
        #[trigger] rest[j]).frame.x by {
            assert(rest[j] == monitors[j]);
        }
        lemma_leftmost(rest, k);
    } else {
        lemma_leftmost_bound(rest, monitors[k].frame.x);
    }
}

proof fn lemma_leftmost_bound(monitors: Seq<Monitor>, x: i64)
    requires
        forall|j: int| 0 <= j < monitors.len() ==> x <= (#[trigger] monitors[j]).frame.x,
    ensures
        x <= leftmost(monitors),
    decreases monitors.len(),
{
    if monitors.len() > 0 {
        assert forall|j: int| 0 <= j < monitors.drop_last().len() implies x <= (
        #[trigger] monitors.drop_last()[j]).frame.x by {
            assert(monitors.drop_last()[j] == monitors[j]);
        }
        lemma_leftmost_bound(monitors.drop_last(), x);
    }
}

proof fn lemma_rightmost_bound(monitors: Seq<Monitor>, x: int)
    requires
        2 * i64::MIN <= x,
        forall|j: int|
            0 <= j < monitors.len() ==> (#[trigger] monitors[j]).frame.x + monitors[j].frame.width
                <= x,
    ensures
        rightmost(monitors) <= x,
    decreases monitors.len(),
{
    if monitors.len() > 0 {
        assert forall|j: int| 0 <= j < monitors.drop_last().len() implies (
        #[trigger] monitors.drop_last()[j]).frame.x + monitors.drop_last()[j].frame.width <= x by {
            assert(monitors.drop_last()[j] == monitors[j]);
        }
        lemma_rightmost_bound(monitors.drop_last(), x);
    }
}

proof fn lemma_rightmost(monitors: Seq<Monitor>, k: int)
    requires
        0 <= k < monitors.len(),
        forall|j: int|
            0 <= j < monitors.len() ==> (#[trigger] monitors[j]).frame.x + monitors[j].frame.width
                <= monitors[k].frame.x + monitors[k].frame.width,
    ensures
        rightmost(monitors) == monitors[k].frame.x + monitors[k].frame.width,
    decreases monitors.len(),
{
    let rest = monitors.drop_last();
    let right = monitors[k].frame.x + monitors[k].frame.width;
    if k < rest.len() {
        assert(rest[k] == monitors[k]);
        assert forall|j: int| 0 <= j < rest.len() implies (#[trigger] rest[j]).frame.x
            + rest[j].frame.width <= rest[k].frame.x + rest[k].frame.width by {
            assert(rest[j] == monitors[j]);
        }
        lemma_rightmost(rest, k);
    } else {
        assert forall|j: int| 0 <= j < rest.len() implies (#[trigger] rest[j]).frame.x
            + rest[j].frame.width <= right by {
            assert(rest[j] == monitors[j]);
        }
        lemma_rightmost_bound(rest, right);
    }
}

/// Windows are hidden at the side of their monitor that is nearer to the end of the desk, at the
/// left one if both are as near. The desk goes from the left edge of the monitor that lies
/// furthest to the left to the right edge of the one that lies furthest to the right.
pub proof fn law_windows_are_hidden_at_outer_side(
    monitors: Seq<Monitor>,
    mi: usize,
    first: int,
    last: int,
)
    requires
        mi < monitors.len(),
        0 <= first < monitors.len(),
        0 <= last < monitors.len(),
        forall|j: int|
            0 <= j < monitors.len() ==> monitors[first].frame.x <= (
            #[trigger] monitors[j]).frame.x,
        forall|j: int|
            0 <= j < monitors.len() ==> (#[trigger] monitors[j]).frame.x + monitors[j].frame.width
                <= monitors[last].frame.x + monitors[last].frame.width,
    ensures
        ({
            let frame = monitors[mi as int].frame;
            let spot = spot_for(frame, Some(mi), monitors);
            let to_the_left = frame.x - monitors[first].frame.x;
            let to_the_right = monitors[last].frame.x + monitors[last].frame.width - (frame.x
                + frame.width);
            &&& spot.to_left <==> to_the_left <= to_the_right
            &&& spot.to_left ==> spot.edge == frame.x
            &&& !spot.to_left && frame.x + frame.width <= i64::MAX && frame.x + frame.width
                >= i64::MIN ==> spot.edge == frame.x + frame.width
        }),
{
    lemma_leftmost(monitors, first);
    lemma_rightmost(monitors, last);
}

/// A window is hidden at the monitor that shows its workspace; where none does, at the one that did
/// so last, by its place and then by its display; and else at the focused one.
pub proof fn law_window_is_hidden_at_its_monitor(wm: Wm, w: WindowId, i: int, d: int)
    requires
        in_one_place(wm.workspaces),
        0 <= i < wm.workspaces.len() <= usize::MAX,
        wm.workspaces[i].holds(w),
        0 < wm.monitors.len() <= usize::MAX,
        wm.focused_monitor < wm.monitors.len(),
    ensures
        ({
            let ws = wm.workspaces[i];
            let shown = wm.showing(i as usize);
            &&& shown is Some ==> wm.hide_monitor(w) == shown
            &&& shown is None && ws.last_monitor is Some && ws.last_monitor->0 < wm.monitors.len()
                ==> wm.hide_monitor(w) == ws.last_monitor
            &&& (shown is None && ws.last_monitor is None && ws.last_display_id is Some && 0 <= d
                < wm.monitors.len() && wm.monitors[d].id == ws.last_display_id->0 && forall|j: int|
                0 <= j < d ==> (#[trigger] wm.monitors[j]).id != ws.last_display_id->0)
                ==> wm.hide_monitor(w) == Some(d as usize)
            &&& shown is None && ws.last_monitor is None && ws.last_display_id is None
                ==> wm.hide_monitor(w) == Some(wm.focused_monitor)
            &&& (wm.hide_monitor(w) matches Some(mi) ==> (wm.hide_of(w) matches Effect::Hide {
                id,
                spot,
                width,
            } && {
                &&& id == w
                &&& spot == spot_for(wm.monitors[mi as int].frame, Some(mi), wm.monitors)
                &&& window_of(wm.registry, w) is Some ==> width == window_of(
                    wm.registry,
                    w,
                )->0.width
            }))
        }),
{
    lemma_home(wm, w, i);
    let ws = wm.workspaces[i];
    if 0 <= d < wm.monitors.len() && ws.last_display_id is Some && wm.monitors[d].id
        == ws.last_display_id->0 && forall|j: int|
        0 <= j < d ==> (#[trigger] wm.monitors[j]).id != ws.last_display_id->0 {
        assert(is_first_where(wm.monitors, is_display(ws.last_display_id->0), d));
        lemma_first_where(wm.monitors, is_display(ws.last_display_id->0), d);
    }
}

} // verus!
