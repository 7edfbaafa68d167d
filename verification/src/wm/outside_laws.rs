//! What happens from outside: programs that end, and focus that the user gives elsewhere.
use vstd::prelude::*;
use crate::seqs::{
    first_where, is_last_where, is_least, least, lemma_first_where_found, lemma_last_where,
};
use crate::wm::focus::{is_echo, is_live};
use crate::wm::focus_laws::{law_focused_window_has_focus, lemma_home};
use crate::wm::lifecycle::window_ids_of;
use crate::wm::monitor::shows;
use crate::wm::state::Wm;
use crate::wm::window::{has_id, of_app, of_other_app, window_of, WindowId};
use crate::wm::workspace::{holds_window, Ws};
use crate::wm::workspace_laws::{in_one_place, law_closed_window_is_gone, tidy};

verus! {

// --- Programs that end ---

/// A window that is dropped is on no workspace any more, and the others stay.
proof fn lemma_window_dropped(wm: Wm, w: WindowId)
    requires
        in_one_place(wm.workspaces),
        wm.workspaces.len() <= usize::MAX,
    ensures
        ({
            let after = wm.window_dropped(w);
            &&& in_one_place(after.workspaces)
            &&& after.workspaces.len() == wm.workspaces.len()
            &&& after.registry == wm.registry
            &&& after.monitors == wm.monitors
            &&& forall|i: int, x: WindowId|
                0 <= i < wm.workspaces.len() ==> (#[trigger] after.workspaces[i].holds(x)
                    <==> wm.workspaces[i].holds(x) && x != w)
        }),
{
    let s = wm.forgot(w);
    let after = wm.window_dropped(w);
    let p = holds_window(w);
    lemma_first_where_found(wm.workspaces, p);
    match first_where(wm.workspaces, p) {
        Some(h) => {
            let ws = wm.workspaces[h];
            assert(tidy(ws));
            let calm = Ws { focused: None, ..ws };
            lemma_same_holds(ws, calm);
            law_closed_window_is_gone(calm, w);
            let now = after.workspaces[h];
            let gone = calm.closed(w);
            assert(now.tree == gone.tree && now.floating == gone.floating);
            lemma_same_holds(gone, now);
            assert forall|i: int, x: WindowId| 0 <= i < wm.workspaces.len() implies (
            #[trigger] after.workspaces[i].holds(x) <==> wm.workspaces[i].holds(x) && x != w) by {
                if i == h {
                    assert(gone.holds(x) <==> calm.holds(x) && x != w);
                    assert(calm.holds(x) == ws.holds(x));
                    assert(now.holds(x) == gone.holds(x));
                } else {
                    assert(after.workspaces[i] == wm.workspaces[i]);
                    if x == w {
                        assert(p(ws));
                        if i < h {
                            assert(!(wm.workspaces[i].holds(w) && wm.workspaces[h].holds(w)));
                        } else {
                            assert(!(wm.workspaces[h].holds(w) && wm.workspaces[i].holds(w)));
                        }
                    }
                }
            }
            assert forall|i: int| 0 <= i < after.workspaces.len() implies tidy(
                #[trigger] after.workspaces[i],
            ) by {
                if i != h {
                    assert(after.workspaces[i] == wm.workspaces[i]);
                } else {
                    assert(tidy(gone));
                    assert forall|x: WindowId| !(#[trigger] now.tree.windows().contains(x)
                        && now.floats(x)) by {
                        assert(!(gone.tree.windows().contains(x) && gone.floats(x)));
                    }
                }
            }
            assert forall|i: int, j: int, x: WindowId| 0 <= i < j < after.workspaces.len() implies !(
            #[trigger] after.workspaces[i].holds(x) && #[trigger] after.workspaces[j].holds(x)) by {
                assert(!(wm.workspaces[i].holds(x) && wm.workspaces[j].holds(x)));
            }
        },
        None => {
            assert forall|i: int, x: WindowId| 0 <= i < wm.workspaces.len() implies (
            #[trigger] after.workspaces[i].holds(x) <==> wm.workspaces[i].holds(x) && x != w) by {
                assert(!p(wm.workspaces[i]));
            }
        },
    }
}

/// Workspaces with the same tree and floating windows hold the same windows.
proof fn lemma_same_holds(a: Ws, b: Ws)
    requires
        a.tree == b.tree,
        a.floating == b.floating,
    ensures
        forall|x: WindowId| #[trigger] a.holds(x) == b.holds(x),
        tidy(a) ==> tidy(b),
{
    if tidy(a) {
        assert forall|x: WindowId| !(#[trigger] b.tree.windows().contains(x) && b.floats(x)) by {
            assert(!(a.tree.windows().contains(x) && a.floats(x)));
        }
    }
}

proof fn lemma_windows_dropped(wm: Wm, ids: Seq<WindowId>)
    requires
        in_one_place(wm.workspaces),
        wm.workspaces.len() <= usize::MAX,
    ensures
        ({
            let after = wm.windows_dropped(ids);
            &&& in_one_place(after.workspaces)
            &&& after.workspaces.len() == wm.workspaces.len()
            &&& after.registry == wm.registry
            &&& after.monitors == wm.monitors
            &&& forall|i: int, x: WindowId|
                0 <= i < wm.workspaces.len() ==> (#[trigger] after.workspaces[i].holds(x)
                    <==> wm.workspaces[i].holds(x) && !ids.contains(x))
        }),
    decreases ids.len(),
{
    if ids.len() > 0 {
        let rest = ids.drop_last();
        let w = ids.last();
        lemma_windows_dropped(wm, rest);
        let before = wm.windows_dropped(rest);
        lemma_window_dropped(before, w);
        let after = wm.windows_dropped(ids);
        assert forall|i: int, x: WindowId| 0 <= i < wm.workspaces.len() implies (
        #[trigger] after.workspaces[i].holds(x) <==> wm.workspaces[i].holds(x) && !ids.contains(
            x,
        )) by {
            assert(after.workspaces[i].holds(x) <==> before.workspaces[i].holds(x) && x != w);
            assert(before.workspaces[i].holds(x) <==> wm.workspaces[i].holds(x) && !rest.contains(
                x,
            ));
            if rest.contains(x) {
                let k = choose|k: int| 0 <= k < rest.len() && rest[k] == x;
                assert(ids[k] == x);
            }
            if ids.contains(x) && x != w {
                let k = choose|k: int| 0 <= k < ids.len() && ids[k] == x;
                assert(rest[k] == x);
            }
            if x == w {
                assert(ids[ids.len() - 1] == x);
            }
        }
    }
}

/// When a program ends, nothing is known of its windows any more and no workspace holds them; what
/// is known of windows of other programs stays, and so do their places.
pub proof fn law_ended_program_leaves_no_window(wm: Wm, pid: i32)
    requires
        in_one_place(wm.workspaces),
        wm.workspaces.len() <= usize::MAX,
    ensures
        ({
            let after = wm.app_ended(pid);
            &&& forall|k: int|
                0 <= k < after.registry.len() ==> (#[trigger] after.registry[k]).app_pid != pid
            &&& forall|k: int|
                0 <= k < wm.registry.len() && (#[trigger] wm.registry[k]).app_pid != pid
                    ==> after.registry.contains(wm.registry[k])
            &&& after.workspaces.len() == wm.workspaces.len()
            &&& forall|i: int, k: int|
                #![trigger wm.registry[k], after.workspaces[i]]
                0 <= i < wm.workspaces.len() && 0 <= k < wm.registry.len()
                    && wm.registry[k].app_pid == pid ==> !after.workspaces[i].holds(
                    wm.registry[k].id,
                )
            &&& forall|i: int, x: WindowId|
                0 <= i < wm.workspaces.len() && (forall|k: int|
                    0 <= k < wm.registry.len() && (#[trigger] wm.registry[k]).id == x
                        ==> wm.registry[k].app_pid != pid) ==> (#[trigger] after.workspaces[i].holds(
                    x,
                ) <==> wm.workspaces[i].holds(x))
        }),
{
    let p = of_app(pid);
    let q = of_other_app(pid);
    let mine = wm.registry.filter(p);
    let ids = window_ids_of(mine);
    let kept = Wm { registry: wm.registry.filter(q), ..wm };
    let s = kept.windows_dropped(ids);
    lemma_windows_dropped(kept, ids);
    let after = wm.app_ended(pid);
    assert forall|k: int| 0 <= k < after.registry.len() implies (
    #[trigger] after.registry[k]).app_pid != pid by {
        wm.registry.lemma_filter_pred(q, k);
    }
    assert forall|k: int|
        0 <= k < wm.registry.len() && (#[trigger] wm.registry[k]).app_pid
            != pid implies after.registry.contains(wm.registry[k]) by {
        wm.registry.lemma_filter_contains(q, k);
    }
    assert forall|i: int, x: WindowId| 0 <= i < wm.workspaces.len() implies (
    #[trigger] after.workspaces[i].holds(x) == s.workspaces[i].holds(x)) by {
        if ids.len() > 0 {
            let ws = s.workspaces[i];
            lemma_same_holds(ws, after.workspaces[i]);
        }
    }
    assert forall|k: int| 0 <= k < wm.registry.len() && wm.registry[k].app_pid
        == pid implies ids.contains((#[trigger] wm.registry[k]).id) by {
        wm.registry.lemma_filter_contains(p, k);
        assert(mine.contains(wm.registry[k]));
        let m = choose|m: int| 0 <= m < mine.len() && mine[m] == wm.registry[k];
        assert(ids[m] == wm.registry[k].id);
    }
    assert forall|i: int, k: int|
        #![trigger wm.registry[k], after.workspaces[i]]
        0 <= i < wm.workspaces.len() && 0 <= k < wm.registry.len() && wm.registry[k].app_pid
            == pid implies !after.workspaces[i].holds(wm.registry[k].id) by {
        let x = wm.registry[k].id;
        assert(ids.contains(x));
        assert(s.workspaces[i].holds(x) <==> kept.workspaces[i].holds(x) && !ids.contains(x));
        assert(after.workspaces[i].holds(x) == s.workspaces[i].holds(x));
    }
    assert forall|i: int, x: WindowId|
        0 <= i < wm.workspaces.len() && (forall|k: int|
            0 <= k < wm.registry.len() && (#[trigger] wm.registry[k]).id == x
                ==> wm.registry[k].app_pid != pid) implies (#[trigger] after.workspaces[i].holds(x)
        <==> wm.workspaces[i].holds(x)) by {
        assert(after.workspaces[i].holds(x) == s.workspaces[i].holds(x));
        assert(s.workspaces[i].holds(x) <==> kept.workspaces[i].holds(x) && !ids.contains(x));
        if ids.contains(x) {
            let m = choose|m: int| 0 <= m < ids.len() && ids[m] == x;
            wm.registry.lemma_filter_pred(p, m);
            wm.registry.lemma_filter_contains_rev(p, mine[m]);
            let k = choose|k: int| 0 <= k < wm.registry.len() && wm.registry[k] == mine[m];
            assert(wm.registry[k].id == x);
        }
    }
}

// --- Focus from outside ---

/// When the user gives a window the focus elsewhere, it gets it here too: the monitor that shows its
/// workspace is the focused one, and the window has the focus there. Not while foreign focus is
/// passed over, nor where it echoes an own change within its time.
pub proof fn law_foreign_focus_is_followed(
    wm: Wm,
    pid: i32,
    w: WindowId,
    i: int,
    mi: usize,
)
    requires
        in_one_place(wm.workspaces),
        0 <= i < wm.workspaces.len() <= usize::MAX,
        wm.workspaces[i].holds(w),
        window_of(wm.registry, w) is Some,
        !window_of(wm.registry, w)->0.minimized,
        wm.showing(i as usize) == Some(mi),
        wm.silence is None || wm.silence->0 <= wm.now,
        forall|k: int|
            0 <= k < wm.recent.len() && (#[trigger] wm.recent[k]).id == w ==> wm.recent[k].until
                <= wm.now,
        wm.special_on(mi) is None,
    ensures
        ({
            let after = wm.app_focus_adopted(pid, Some(w));
            &&& after.focused_monitor == mi
            &&& after.monitors == wm.monitors
            &&& after.workspaces[i].focused == Some(w)
            &&& forall|j: int|
                0 <= j < wm.workspaces.len() && j != i ==> #[trigger] after.workspaces[j]
                    == wm.workspaces[j]
        }),
{
    let s = wm.silence_checked().recent_pruned();
    let p = is_live(wm.now);
    if is_echo(s.recent, pid, Some(w)) {
        let k = choose|k: int| 0 <= k < s.recent.len() && (#[trigger] s.recent[k]).id == w;
        wm.recent.lemma_filter_pred(p, k);
        wm.recent.lemma_filter_contains_rev(p, s.recent[k]);
        let m = choose|m: int| 0 <= m < wm.recent.len() && wm.recent[m] == s.recent[k];
        assert(wm.recent[m].id == w);
    }
    assert(s.workspaces == wm.workspaces && s.registry == wm.registry && s.monitors == wm.monitors);
    lemma_home(s, w, i);
    assert(s.external_target(pid, Some(w)) == Some(w));
    law_focused_window_has_focus(s, w, false, i);
    let given = s.focused_on(w, false);
    assert(given.showing(i as usize) == Some(mi));
    assert(given.specials == wm.specials);
    let after = wm.app_focus_adopted(pid, Some(w));
    assert(after == s.focus_adopted(w));
}

/// A report that echoes an own change, while it is remembered, changes no workspace and no monitor;
/// one that names another window of the same program is no echo of it.
pub proof fn law_echo_is_passed_over(wm: Wm, pid: i32, w: WindowId, k: int)
    requires
        0 <= k < wm.recent.len(),
        wm.recent[k].id == w,
        wm.now < wm.recent[k].until,
    ensures
        ({
            let after = wm.app_focus_adopted(pid, Some(w));
            &&& after.workspaces == wm.workspaces
            &&& after.monitors == wm.monitors
            &&& after.focused_monitor == wm.focused_monitor
            &&& after.effects == wm.effects
        }),
{
    let s = wm.silence_checked().recent_pruned();
    let p = is_live(wm.now);
    wm.recent.lemma_filter_contains(p, k);
    assert(s.recent.contains(wm.recent[k]));
    let m = choose|m: int| 0 <= m < s.recent.len() && s.recent[m] == wm.recent[k];
    assert(s.recent[m].id == w);
    assert(is_echo(s.recent, pid, Some(w)));
}

/// A focus that the user gives to a program goes to the window that was asked for, if that is known,
/// not minimized and on a workspace; else it goes to a window of the program.
pub proof fn law_focus_goes_to_asked_window(wm: Wm, pid: i32, w: WindowId)
    ensures
        ({
            let good = |id: WindowId|
                window_of(wm.registry, id) is Some && !window_of(wm.registry, id)->0.minimized
                    && wm.home_of(id) is Some;
            &&& good(w) ==> wm.external_target(pid, Some(w)) == Some(w)
            &&& !good(w) ==> wm.external_target(pid, Some(w)) == wm.external_target(pid, None)
            &&& (wm.external_target(pid, None) matches Some(x) ==> good(x) && exists|k: int|
                0 <= k < wm.registry.len() && (#[trigger] wm.registry[k]).id == x
                    && wm.registry[k].app_pid == pid)
        }),
{
    let n = wm.workspaces.len() as int;
    let active = if wm.focused_monitor < wm.monitors.len() {
        Some(wm.active_idx())
    } else {
        None
    };
    lemma_least_property(n, wm.offers(pid, true, active));
    lemma_least_property(n, wm.offers(pid, false, None));
    lemma_first_where_found(wm.registry, wm.is_known_candidate(pid));
    if wm.external_target(pid, None) is Some {
        let x = wm.external_target(pid, None)->0;
        match first_where(wm.registry, wm.is_known_candidate(pid)) {
            Some(k) => {
                assert(wm.is_known_candidate(pid)(wm.registry[k]));
            },
            None => {},
        }
        assert forall|idx: usize| #[trigger] wm.pid_target_in(idx, pid) == Some(x) implies
            wm.is_candidate_of(pid)(x) by {
            let history = wm.workspaces[idx as int].focus_history;
            let p = wm.is_candidate_of(pid);
            let k = choose|k: int| is_last_where(history, p, k);
            assert(is_last_where(history, p, k));
        }
        if wm.is_candidate_of(pid)(x) {
            lemma_first_where_found(wm.registry, has_id(x));
            let k = first_where(wm.registry, has_id(x))->0;
            assert(has_id(x)(wm.registry[k]));
            assert(wm.registry[k].id == x && wm.registry[k].app_pid == pid);
        }
    }
}

proof fn lemma_least_property(n: int, p: spec_fn(int) -> bool)
    ensures
        least(n, p) matches Some(i) ==> 0 <= i < n && p(i),
{
    if least(n, p) is Some {
        let k = choose|k: int| is_least(n, p, k);
        assert(is_least(n, p, k));
    }
}

/// Of the windows of a program on the active workspace the one that had the focus last gets it.
pub proof fn law_latest_window_of_program_gets_focus(wm: Wm, pid: i32, k: int)
    requires
        wm.focused_monitor < wm.monitors.len(),
        0 <= k < wm.active().focus_history.len(),
        ({
            let w = wm.active().focus_history[k];
            &&& window_of(wm.registry, w) is Some
            &&& window_of(wm.registry, w)->0.app_pid == pid
            &&& !window_of(wm.registry, w)->0.minimized
            &&& wm.home_of(w) is Some
        }),
        forall|j: int|
            k < j < wm.active().focus_history.len() ==> ({
                let x = #[trigger] wm.active().focus_history[j];
                window_of(wm.registry, x) is None || window_of(wm.registry, x)->0.app_pid != pid
                    || window_of(wm.registry, x)->0.minimized
            }),
    ensures
        wm.external_target(pid, None) == Some(wm.active().focus_history[k]),
{
    let history = wm.active().focus_history;
    let p = wm.is_candidate_of(pid);
    assert(p(history[k]));
    assert(is_last_where(history, p, k));
    lemma_last_where(history, p, k);
}

/// A workspace whose focused window is gone gives the focus back to the window that had it before, if
/// the gone one had it last; a workspace whose focused window is still there keeps it.
pub proof fn law_gone_focus_is_given_back(wm: Wm, ids: Seq<WindowId>, i: int)
    requires
        0 <= i < wm.workspaces.len(),
        wm.workspaces[i].focused is Some,
    ensures
        ({
            let ws = wm.workspaces[i];
            let now = wm.focus_dropped(ids).workspaces[i];
            let w = ws.focused->0;
            let n = ws.focus_history.len();
            &&& !ids.contains(w) ==> now == ws
            &&& ids.contains(w) && n > 1 && ws.focus_history.last() == w ==> now.focused == Some(
                ws.focus_history[n - 2],
            )
            &&& ids.contains(w) && n <= 1 ==> now.focused is None
            &&& now.tree == ws.tree && now.floating == ws.floating
        }),
{
}

} // verus!
