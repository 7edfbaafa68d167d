//! Which workspaces monitors show at the start and when displays are connected.
use vstd::prelude::*;
use crate::seqs::{
    first_where, is_first_where, is_least, least, lemma_first_where, lemma_first_where_found,
    lemma_least,
};
use crate::wm::display_laws::{
    distinct_displays, has_display, law_displays_keep_their_workspaces, lemma_few_monitors,
};
use crate::wm::displays::{filled, Plug};
use crate::wm::monitor::{
    has_point, initial_focus, is_display, left_to_right, primary, Monitor, MonitorId,
};
use crate::wm::pointer_laws::covers;
use crate::wm::state::{NewWin, Wm};
use crate::wm::state_laws::shown_once;

verus! {

/// Where something below a number has a property, the least such is found.
proof fn lemma_least_found(n: int, p: spec_fn(int) -> bool, j: int)
    requires
        0 <= j < n,
        p(j),
    ensures
        least(n, p) is Some,
        is_least(n, p, least(n, p)->0),
    decreases j,
{
    if exists|k: int| 0 <= k < j && #[trigger] p(k) {
        let k = choose|k: int| 0 <= k < j && #[trigger] p(k);
        lemma_least_found(n, p, k);
    } else {
        assert(is_least(n, p, j));
        lemma_least(n, p, j);
    }
}

/// Where nothing below a number has a property, nothing is found.
proof fn lemma_least_absent(n: int, p: spec_fn(int) -> bool)
    requires
        forall|j: int| 0 <= j < n ==> !#[trigger] p(j),
    ensures
        least(n, p) is None,
{
    assert forall|i: int| !is_least(n, p, i) by {
        if is_least(n, p, i) {
            assert(p(i));
        }
    }
}

// --- New displays ---

/// A new display gets the first idle workspace that prefers it; where none does, the first idle one
/// that it showed last; where there is none either, the first idle one that prefers no display; and
/// where all of them prefer another one, the first idle one.
pub proof fn law_new_display_gets_workspace(plug: Plug, id: MonitorId, i: int)
    requires
        plug.wm.workspaces.len() <= usize::MAX,
        0 <= i < plug.wm.workspaces.len(),
        plug.is_idle(i),
    ensures
        ({
            let n = plug.wm.workspaces.len() as int;
            let c = plug.choice_for(id) as int;
            let some_prefers = exists|j: int|
                0 <= j < n && #[trigger] plug.is_idle(j) && plug.wish_of(j) == Some(id);
            let some_was_there = exists|j: int|
                0 <= j < n && #[trigger] plug.is_idle(j)
                    && plug.wm.workspaces[j].last_display_id == Some(id);
            let some_is_free = exists|j: int|
                0 <= j < n && #[trigger] plug.is_idle(j) && plug.wish_of(j) is None;
            &&& 0 <= c < n
            &&& plug.is_idle(c)
            &&& some_prefers ==> plug.wish_of(c) == Some(id)
            &&& !some_prefers && some_was_there ==> plug.wm.workspaces[c].last_display_id == Some(id)
            &&& !some_prefers && !some_was_there && some_is_free ==> plug.wish_of(c) is None
            &&& some_prefers ==> forall|j: int|
                0 <= j < c && #[trigger] plug.is_idle(j) ==> plug.wish_of(j) != Some(id)
        }),
{
    let n = plug.wm.workspaces.len() as int;
    let p = plug.wishes_for(id);
    let q = plug.was_on(id);
    let r = plug.wishes_nothing();
    let s = plug.idle();
    if exists|j: int| 0 <= j < n && #[trigger] plug.is_idle(j) && plug.wish_of(j) == Some(id) {
        let j = choose|j: int|
            0 <= j < n && #[trigger] plug.is_idle(j) && plug.wish_of(j) == Some(id);
        lemma_least_found(n, p, j);
        let c = least(n, p)->0;
        assert forall|k: int| 0 <= k < c && #[trigger] plug.is_idle(k) implies plug.wish_of(k)
            != Some(id) by {
            assert(!p(k));
        }
    } else {
        assert forall|j: int| 0 <= j < n implies !#[trigger] p(j) by {
            assert(plug.is_idle(j) ==> plug.wish_of(j) != Some(id));
        }
        lemma_least_absent(n, p);
        if exists|j: int|
            0 <= j < n && #[trigger] plug.is_idle(j) && plug.wm.workspaces[j].last_display_id
                == Some(id) {
            let j = choose|j: int|
                0 <= j < n && #[trigger] plug.is_idle(j) && plug.wm.workspaces[j].last_display_id
                    == Some(id);
            lemma_least_found(n, q, j);
        } else {
            assert forall|j: int| 0 <= j < n implies !#[trigger] q(j) by {
                assert(plug.is_idle(j) ==> plug.wm.workspaces[j].last_display_id != Some(id));
            }
            lemma_least_absent(n, q);
            if exists|j: int| 0 <= j < n && #[trigger] plug.is_idle(j) && plug.wish_of(j) is None {
                let j = choose|j: int|
                    0 <= j < n && #[trigger] plug.is_idle(j) && plug.wish_of(j) is None;
                lemma_least_found(n, r, j);
            } else {
                assert forall|j: int| 0 <= j < n implies !#[trigger] r(j) by {
                    assert(plug.is_idle(j) ==> plug.wish_of(j) is Some);
                }
                lemma_least_absent(n, r);
                lemma_least_found(n, s, i);
            }
        }
    }
}

/// While displays come and go, the focus stays on the display that has it as long as that one is
/// connected.
pub proof fn law_focus_stays_on_display(wm: Wm, displays: Seq<Monitor>)
    requires
        wm.sound(),
        shown_once(wm),
        distinct_displays(wm.monitors),
        distinct_displays(displays),
        displays.len() > 0,
        2 * displays.len() < usize::MAX,
        wm.workspaces.len() + displays.len() < usize::MAX,
        wm.focused_monitor < wm.monitors.len(),
        has_display(displays, wm.monitors[wm.focused_monitor as int].id),
    ensures
        ({
            let after = wm.replugged(displays);
            &&& after.focused_monitor < after.monitors.len()
            &&& after.monitors[after.focused_monitor as int].id
                == wm.monitors[wm.focused_monitor as int].id
        }),
{
    law_displays_keep_their_workspaces(wm, displays);
    let id = wm.monitors[wm.focused_monitor as int].id;
    let after = wm.replugged(displays);
    let all = left_to_right(displays);
    let n = all.len() as int;
    let plug = wm.survivors(all, n).all_orphaned(all, wm.monitors.len() as int).all_attached(all, n);
    let synced = Wm {
        monitors: plug.monitors,
        specials: wm.specials_for(plug.monitors),
        ..plug.wm
    }.visibility_synced();
    let p = is_display(id);
    lemma_first_where_found(synced.monitors, p);
    let kept = synced.focus_kept(Some(id));
    assert(after == kept.laid_out_twice().fix_started());
    reveal(Wm::focused_on);
    assert(after.monitors == synced.monitors);
    assert(has_display(after.monitors, id));
    let m = choose|m: int| 0 <= m < after.monitors.len() && (#[trigger] after.monitors[m]).id == id;
    if first_where(synced.monitors, p) is None {
        assert(!p(synced.monitors[m]));
    }
    let k = first_where(synced.monitors, p)->0;
    assert(p(synced.monitors[k]));
    lemma_few_monitors(wm, displays);
}

// --- The start ---

proof fn lemma_filled_keeps(given: Seq<Option<usize>>, n: int, i: int)
    requires
        0 <= n <= given.len(),
        0 <= i < given.len(),
        given[i] is Some,
    ensures
        filled(given, n).len() == given.len(),
        filled(given, n)[i] == given[i],
    decreases n,
{
    if n > 0 {
        lemma_filled_keeps(given, n - 1, i);
    }
}

proof fn lemma_unclaimed(wm: Wm, n: int, mi: int)
    requires
        0 <= n <= wm.workspaces.len() <= usize::MAX,
        0 <= mi < wm.monitors.len(),
        forall|k: usize| k < n ==> #[trigger] wm.preferred_monitor(k) != Some(mi as usize),
        wm.monitors.len() <= usize::MAX,
    ensures
        wm.claims(n).len() == wm.monitors.len(),
        wm.claims(n)[mi] is None,
    decreases n,
{
    if n > 0 {
        lemma_unclaimed(wm, n - 1, mi);
        assert(wm.preferred_monitor((n - 1) as usize) != Some(mi as usize));
    }
}

proof fn lemma_claimed(wm: Wm, n: int, mi: int, i: usize)
    requires
        i < n <= wm.workspaces.len() <= usize::MAX,
        0 <= mi < wm.monitors.len() <= usize::MAX,
        wm.preferred_monitor(i) == Some(mi as usize),
        forall|k: usize| k < i ==> #[trigger] wm.preferred_monitor(k) != Some(mi as usize),
    ensures
        wm.claims(n).len() == wm.monitors.len(),
        wm.claims(n)[mi] == Some(i),
    decreases n,
{
    if i == n - 1 {
        lemma_unclaimed(wm, n - 1, mi);
    } else {
        lemma_claimed(wm, n - 1, mi, i);
    }
}

/// At the start a monitor shows the first workspace that prefers it. The focused monitor, if no
/// workspace prefers it, shows the first workspace of all.
pub proof fn law_monitors_show_who_prefers_them(wm: Wm, mi: int, i: usize)
    requires
        wm.workspaces.len() <= usize::MAX,
        wm.focused_monitor < wm.monitors.len() <= usize::MAX,
        0 <= mi < wm.monitors.len(),
    ensures
        i < wm.workspaces.len() && wm.preferred_monitor(i) == Some(mi as usize) && (forall|k: usize|
            k < i ==> #[trigger] wm.preferred_monitor(k) != Some(mi as usize))
            ==> wm.assignments()[mi] == Some(i),
        mi == wm.focused_monitor && (forall|k: usize|
            k < wm.workspaces.len() ==> #[trigger] wm.preferred_monitor(k) != Some(mi as usize))
            ==> wm.assignments()[mi] == Some(0usize),
{
    let n = wm.workspaces.len() as int;
    let claimed = wm.claims(n);
    let focus = wm.focused_monitor as int;
    let given = if claimed[focus] is None {
        claimed.update(focus, Some(0usize))
    } else {
        claimed
    };
    if i < n && wm.preferred_monitor(i) == Some(mi as usize) && (forall|k: usize|
        k < i ==> #[trigger] wm.preferred_monitor(k) != Some(mi as usize)) {
        lemma_claimed(wm, n, mi, i);
        assert(given[mi] == Some(i));
        lemma_filled_keeps(given, wm.monitors.len() as int, mi);
    }
    if mi == focus && (forall|k: usize|
        k < n ==> #[trigger] wm.preferred_monitor(k) != Some(mi as usize)) {
        lemma_unclaimed(wm, n, mi);
        assert(given[mi] == Some(0usize));
        lemma_filled_keeps(given, wm.monitors.len() as int, mi);
    }
}

proof fn lemma_assigned(wm: Wm, given: Seq<Option<usize>>, n: int)
    requires
        0 <= n <= wm.monitors.len(),
    ensures
        ({
            let after = wm.assigned_upto(given, n);
            &&& after.monitors.len() == wm.monitors.len()
            &&& after.focused_monitor == wm.focused_monitor
            &&& forall|k: int|
                0 <= k < n ==> (#[trigger] after.monitors[k]).active_workspace == given[k]->0
            &&& forall|k: int|
                0 <= k < wm.monitors.len() ==> (#[trigger] after.monitors[k]).id
                    == wm.monitors[k].id && after.monitors[k].frame == wm.monitors[k].frame
        }),
    decreases n,
{
    if n > 0 {
        lemma_assigned(wm, given, n - 1);
    }
}

/// At the start the displays are the monitors from left to right, the first one under the mouse has
/// the focus, or the first of all where there is none, and each shows the workspace that it was
/// given.
pub proof fn law_displays_become_monitors(
    wm: Wm,
    displays: Seq<Monitor>,
    x: int,
    y: int,
    windows: Seq<NewWin>,
    k: int,
)
    requires
        left_to_right(displays).len() <= usize::MAX,
    ensures
        ({
            let all = left_to_right(displays);
            let after = wm.discovered(displays, x, y, windows);
            let start = Wm { monitors: all, focused_monitor: after.focused_monitor, ..wm.defined() };
            &&& after.monitors.len() == all.len()
            &&& forall|j: int|
                0 <= j < all.len() ==> (#[trigger] after.monitors[j]).id == all[j].id
                    && after.monitors[j].frame == all[j].frame
                    && after.monitors[j].active_workspace == start.assignments()[j]->0
            &&& 0 <= k < all.len() && covers(all[k].frame, x, y) && (forall|j: int|
                0 <= j < k ==> !covers((#[trigger] all[j]).frame, x, y)) ==> after.focused_monitor
                == k
            &&& (forall|j: int| 0 <= j < all.len() ==> !covers((#[trigger] all[j]).frame, x, y))
                ==> after.focused_monitor == 0
        }),
{
    let all = left_to_right(displays);
    let p = has_point(x, y);
    lemma_first_where_found(all, p);
    let s = Wm {
        monitors: all,
        focused_monitor: match first_where(all, p) {
            Some(i) => i as usize,
            None => 0,
        },
        ..wm.defined()
    };
    lemma_assigned(s, s.assignments(), all.len() as int);
    let after = wm.discovered(displays, x, y, windows);
    assert(after.focused_monitor == s.focused_monitor);
    if let Some(i) = first_where(all, p) {
        assert(p(all[i]));
        assert(covers(all[i].frame, x, y));
    }
    if 0 <= k < all.len() && covers(all[k].frame, x, y) && (forall|j: int|
        0 <= j < k ==> !covers((#[trigger] all[j]).frame, x, y)) {
        assert(p(all[k]));
        assert forall|j: int| 0 <= j < k implies !p(#[trigger] all[j]) by {
            assert(!covers(all[j].frame, x, y));
        }
        assert(is_first_where(all, p, k));
        lemma_first_where(all, p, k);
    }
}

/// The first display that is the main one has the focus at the start, the first of all where none is
/// the main one; without displays the focus stays.
pub proof fn law_main_display_has_focus(monitors: Seq<Monitor>, before: MonitorId, i: int)
    ensures
        (0 <= i < monitors.len() && monitors[i].is_primary && forall|j: int|
            0 <= j < i ==> !(#[trigger] monitors[j]).is_primary) ==> initial_focus(monitors, before)
            == monitors[i].id,
        (monitors.len() > 0 && forall|j: int|
            0 <= j < monitors.len() ==> !(#[trigger] monitors[j]).is_primary) ==> initial_focus(
            monitors,
            before,
        ) == monitors[0].id,
        monitors.len() == 0 ==> initial_focus(monitors, before) == before,
{
    lemma_first_where_found(monitors, primary());
    if 0 <= i < monitors.len() && monitors[i].is_primary && forall|j: int|
        0 <= j < i ==> !(#[trigger] monitors[j]).is_primary {
        assert(is_first_where(monitors, primary(), i));
        lemma_first_where(monitors, primary(), i);
    }
}

} // verus!
