//! Laws of displays that come and go.
use vstd::prelude::*;
use crate::seqs::{
    first_where, is_first_where, is_least, least, lemma_first_where, lemma_first_where_found,
    lemma_sort_slot_range, lemma_sorted_keeps, sort_slot, sorted,
};
use crate::wm::displays::Plug;
use crate::wm::effects::Effect;
use crate::wm::monitor::{further_right, is_display, left_to_right, shows, Monitor, MonitorId};
use crate::wm::state::Wm;
use crate::wm::state_laws::{law_focus_moves_no_workspace, seated, shown_once};
use crate::wm::window::WindowId;
use crate::wm::workspace::law_growing_keeps_workspaces;

verus! {

/// Whether a display is among monitors.
pub open spec fn has_display(monitors: Seq<Monitor>, id: MonitorId) -> bool {
    exists|i: int| 0 <= i < monitors.len() && (#[trigger] monitors[i]).id == id
}

/// Whether no two monitors are the same display.
pub open spec fn distinct_displays(monitors: Seq<Monitor>) -> bool {
    forall|i: int, j: int|
        0 <= i < j < monitors.len() ==> (#[trigger] monitors[i]).id != (#[trigger] monitors[j]).id
}

proof fn lemma_display_found(monitors: Seq<Monitor>, id: MonitorId)
    ensures
        first_where(monitors, is_display(id)) is Some <==> has_display(monitors, id),
{
    let p = is_display(id);
    lemma_first_where_found(monitors, p);
    match first_where(monitors, p) {
        Some(k) => {
            assert(p(monitors[k]));
        },
        None => {
            assert forall|i: int| 0 <= i < monitors.len() implies (#[trigger] monitors[i]).id
                != id by {
                assert(!p(monitors[i]));
            }
        },
    }
}

proof fn lemma_sorted_displays(s: Seq<Monitor>)
    ensures
        forall|id: MonitorId| #[trigger] has_display(left_to_right(s), id) <==> has_display(s, id),
        distinct_displays(s) ==> distinct_displays(left_to_right(s)),
    decreases s.len(),
{
    let gt = further_right();
    if s.len() == 0 {
        assert(left_to_right(s) =~= s);
    } else {
        let rest = s.drop_last();
        let last = s.last();
        lemma_sorted_displays(rest);
        let before = sorted(rest, gt);
        let k = sort_slot(before, gt, last);
        lemma_sort_slot_range(before, gt, last);
        let after = left_to_right(s);
        assert(after == before.insert(k, last));
        assert forall|id: MonitorId| #[trigger] has_display(after, id) <==> has_display(s, id) by {
            if has_display(after, id) {
                let i = choose|i: int| 0 <= i < after.len() && (#[trigger] after[i]).id == id;
                if i == k {
                    assert(s[s.len() - 1].id == id);
                } else {
                    assert(before[if i < k { i } else { i - 1 }].id == id);
                    assert(has_display(left_to_right(rest), id));
                    let j = choose|j: int| 0 <= j < rest.len() && (#[trigger] rest[j]).id == id;
                    assert(s[j].id == id);
                }
            }
            if has_display(s, id) {
                let j = choose|j: int| 0 <= j < s.len() && (#[trigger] s[j]).id == id;
                if j == s.len() - 1 {
                    assert(after[k].id == id);
                } else {
                    assert(rest[j].id == id);
                    assert(has_display(left_to_right(rest), id));
                    let i = choose|i: int|
                        0 <= i < before.len() && (#[trigger] before[i]).id == id;
                    assert(after[if i < k { i } else { i + 1 }].id == id);
                }
            }
        }
        if distinct_displays(s) {
            assert(distinct_displays(rest)) by {
                assert forall|i: int, j: int| 0 <= i < j < rest.len() implies (
                #[trigger] rest[i]).id != (#[trigger] rest[j]).id by {
                    assert(s[i].id != s[j].id);
                }
            }
            assert(!has_display(rest, last.id)) by {
                if has_display(rest, last.id) {
                    let j = choose|j: int|
                        0 <= j < rest.len() && (#[trigger] rest[j]).id == last.id;
                    assert(s[j].id != s[s.len() - 1].id);
                }
            }
            assert(!has_display(left_to_right(rest), last.id));
            assert forall|i: int, j: int| 0 <= i < j < after.len() implies (
            #[trigger] after[i]).id != (#[trigger] after[j]).id by {
                let a = if i < k { i } else { i - 1 };
                let b = if j < k { j } else { j - 1 };
                if i != k {
                    assert(after[i] == before[a]);
                }
                if j != k {
                    assert(after[j] == before[b]);
                }
                if i == k {
                    assert(before[b].id != last.id);
                } else if j == k {
                    assert(before[a].id != last.id);
                } else {
                    assert(before[a].id != before[b].id);
                }
            }
        }
    }
}

/// Whether every monitor of a display that was there before shows what it
/// showed then.
pub open spec fn keeps_workspaces(was: Seq<Monitor>, monitors: Seq<Monitor>) -> bool {
    forall|i: int, k: int|
        0 <= i < monitors.len() && 0 <= k < was.len() && (#[trigger] monitors[i]).id == (
        #[trigger] was[k]).id ==> monitors[i].active_workspace == was[k].active_workspace
}

/// Whether no two monitors show the same workspace.
pub open spec fn all_apart(monitors: Seq<Monitor>) -> bool {
    forall|i: int, j: int|
        0 <= i < j < monitors.len() ==> (#[trigger] monitors[i]).active_workspace != (
        #[trigger] monitors[j]).active_workspace
}

proof fn lemma_survivors(wm: Wm, all: Seq<Monitor>, n: int)
    requires
        0 <= n <= all.len(),
        distinct_displays(all),
        distinct_displays(wm.monitors),
        wm.sound(),
    ensures
        ({
            let m = wm.survivors(all, n).monitors;
            &&& distinct_displays(m)
            &&& keeps_workspaces(wm.monitors, m)
            &&& forall|i: int|
                0 <= i < m.len() ==> has_display(all.take(n), (#[trigger] m[i]).id)
                    && has_display(wm.monitors, m[i].id)
            &&& forall|j: int|
                0 <= j < n && has_display(wm.monitors, (#[trigger] all[j]).id) ==> has_display(
                    m,
                    all[j].id,
                )
            &&& m.len() <= n
            &&& wm.survivors(all, n).wm.monitors == wm.monitors
            &&& wm.survivors(all, n).wm.workspaces.len() == wm.workspaces.len()
        }),
    decreases n,
{
    if n > 0 {
        lemma_survivors(wm, all, n - 1);
        let before = wm.survivors(all, n - 1).monitors;
        let m = wm.survivors(all, n).monitors;
        let d = all[n - 1];
        lemma_display_found(wm.monitors, d.id);
        lemma_first_where_found(wm.monitors, is_display(d.id));
        assert(!has_display(before, d.id)) by {
            if has_display(before, d.id) {
                let i = choose|i: int| 0 <= i < before.len() && (#[trigger] before[i]).id == d.id;
                assert(has_display(all.take(n - 1), before[i].id));
                let j = choose|j: int|
                    0 <= j < n - 1 && (#[trigger] all.take(n - 1)[j]).id == d.id;
                assert(all[j].id != all[n - 1].id);
            }
        }
        if let Some(k) = first_where(wm.monitors, is_display(d.id)) {
            assert(is_display(d.id)(wm.monitors[k]));
            let new = Monitor { active_workspace: wm.monitors[k].active_workspace, ..d };
            assert(m == before.push(new));
            assert forall|i: int, j: int| 0 <= i < m.len() && 0 <= j < wm.monitors.len() && (
            #[trigger] m[i]).id == (#[trigger] wm.monitors[j]).id implies m[i].active_workspace
                == wm.monitors[j].active_workspace by {
                if i == before.len() {
                    if j < k {
                        assert(wm.monitors[j].id != wm.monitors[k].id);
                    }
                    if k < j {
                        assert(wm.monitors[k].id != wm.monitors[j].id);
                    }
                } else {
                    assert(m[i] == before[i]);
                }
            }
            assert forall|i: int, j: int| 0 <= i < j < m.len() implies (#[trigger] m[i]).id != (
            #[trigger] m[j]).id by {
                assert(m[i] == before[i]);
                if j < before.len() {
                    assert(m[j] == before[j]);
                }
            }
            assert forall|i: int| 0 <= i < m.len() implies has_display(
                all.take(n),
                (#[trigger] m[i]).id,
            ) && has_display(wm.monitors, m[i].id) by {
                if i == before.len() {
                    assert(all.take(n)[n - 1].id == m[i].id);
                } else {
                    assert(m[i] == before[i]);
                    lemma_take_more(all, n, m[i].id);
                }
            }
        } else {
            assert forall|i: int| 0 <= i < m.len() implies has_display(
                all.take(n),
                (#[trigger] m[i]).id,
            ) && has_display(wm.monitors, m[i].id) by {
                lemma_take_more(all, n, m[i].id);
            }
        }
        assert forall|j: int|
            0 <= j < n && has_display(wm.monitors, (#[trigger] all[j]).id) implies has_display(
            m,
            all[j].id,
        ) by {
            if j == n - 1 {
                assert(m[m.len() - 1].id == d.id);
            } else {
                assert(has_display(before, all[j].id));
                let i = choose|i: int|
                    0 <= i < before.len() && (#[trigger] before[i]).id == all[j].id;
                assert(m[i] == before[i]);
            }
        }
    }
}

proof fn lemma_take_more(all: Seq<Monitor>, n: int, id: MonitorId)
    requires
        0 < n <= all.len(),
        has_display(all.take(n - 1), id),
    ensures
        has_display(all.take(n), id),
{
    let j = choose|j: int| 0 <= j < n - 1 && (#[trigger] all.take(n - 1)[j]).id == id;
    assert(all.take(n)[j].id == id);
}

proof fn lemma_orphaned(plug: Plug, displays: Seq<Monitor>, n: int)
    requires
        0 <= n <= plug.wm.monitors.len(),
        forall|i: int|
            0 <= i < plug.wm.monitors.len() ==> (#[trigger] plug.wm.monitors[i]).active_workspace
                < plug.wm.workspaces.len(),
    ensures
        plug.all_orphaned(displays, n).monitors == plug.monitors,
        plug.all_orphaned(displays, n).wm.monitors == plug.wm.monitors,
        plug.all_orphaned(displays, n).wm.workspaces.len() == plug.wm.workspaces.len(),
    decreases n,
{
    if n > 0 {
        lemma_orphaned(plug, displays, n - 1);
        let id = plug.wm.monitors[n - 1].id;
        lemma_display_found(plug.wm.monitors, id);
        lemma_first_where_found(plug.wm.monitors, is_display(id));
        assert(has_display(plug.wm.monitors, id));
    }
}

/// Keeping the focus on its display leaves the monitors alone.
proof fn lemma_focus_kept(wm: Wm, display: Option<MonitorId>)
    requires
        0 < wm.monitors.len() <= usize::MAX,
        wm.workspaces.len() <= usize::MAX,
        forall|i: int|
            0 <= i < wm.monitors.len() ==> (#[trigger] wm.monitors[i]).active_workspace
                < wm.workspaces.len(),
    ensures
        wm.focus_kept(display).monitors == wm.monitors,
{
    if let Some(id) = display {
        if first_where(wm.monitors, is_display(id)) is None {
            let s = Wm { focused_monitor: 0, hovered: None, cooldown: None, ..wm };
            if let Some(w) = s.active().focused {
                assert(seated(s));
                law_focus_moves_no_workspace(s, w, true);
            }
        }
    }
}

/// What a new display gets is shown by no monitor so far.
proof fn lemma_choice_is_idle(plug: Plug, id: MonitorId)
    requires
        plug.wm.workspaces.len() < usize::MAX,
        forall|i: int|
            0 <= i < plug.monitors.len() ==> (#[trigger] plug.monitors[i]).active_workspace
                < plug.wm.workspaces.len(),
    ensures
        forall|i: int|
            0 <= i < plug.monitors.len() ==> (#[trigger] plug.monitors[i]).active_workspace
                != plug.choice_for(id),
        plug.choice_for(id) <= plug.wm.workspaces.len(),
{
    let n = plug.wm.workspaces.len() as int;
    let c = plug.choice_for(id);
    let ps = (
        plug.wishes_for(id),
        plug.was_on(id),
        plug.wishes_nothing(),
        plug.idle(),
    );
    if let Some(k) = least(n, ps.0) {
        assert(is_least(n, ps.0, k));
        assert(plug.is_idle(k));
    } else if let Some(k) = least(n, ps.1) {
        assert(is_least(n, ps.1, k));
        assert(plug.is_idle(k));
    } else if let Some(k) = least(n, ps.2) {
        assert(is_least(n, ps.2, k));
        assert(plug.is_idle(k));
    } else if let Some(k) = least(n, ps.3) {
        assert(is_least(n, ps.3, k));
        assert(plug.is_idle(k));
    }
    if c < n {
        assert(plug.is_idle(c as int));
        lemma_first_where_found(plug.monitors, shows(c));
        assert forall|i: int| 0 <= i < plug.monitors.len() implies (
        #[trigger] plug.monitors[i]).active_workspace != c by {
            assert(!shows(c)(plug.monitors[i]));
        }
    }
}

/// The monitors of displays, those of the first `n` among them: each display
/// once, what was there shows what it showed, and no two show the same.
spec fn plugged_well(wm: Wm, plug: Plug, all: Seq<Monitor>, n: int) -> bool {
    &&& distinct_displays(plug.monitors)
    &&& keeps_workspaces(wm.monitors, plug.monitors)
    &&& all_apart(plug.monitors)
    &&& forall|i: int| #![trigger plug.monitors[i]]
        0 <= i < plug.monitors.len() ==> has_display(all, plug.monitors[i].id)
            && plug.monitors[i].active_workspace < plug.wm.workspaces.len()
    &&& forall|j: int|
        0 <= j < n ==> has_display(plug.monitors, (#[trigger] all[j]).id)
    &&& forall|j: int|
        0 <= j < all.len() && has_display(wm.monitors, (#[trigger] all[j]).id) ==> has_display(
            plug.monitors,
            all[j].id,
        )
}

proof fn lemma_attached(wm: Wm, plug: Plug, all: Seq<Monitor>, n: int)
    requires
        0 <= n <= all.len(),
        plugged_well(wm, plug, all, 0),
        plug.wm.workspaces.len() + all.len() < usize::MAX,
    ensures
        plugged_well(wm, plug.all_attached(all, n), all, n),
        plug.all_attached(all, n).wm.workspaces.len() <= plug.wm.workspaces.len() + n,
        plug.all_attached(all, n).wm.workspaces.len() >= plug.wm.workspaces.len(),
        plug.all_attached(all, n).monitors.len() <= plug.monitors.len() + n,
    decreases n,
{
    if n > 0 {
        lemma_attached(wm, plug, all, n - 1);
        let before = plug.all_attached(all, n - 1);
        let after = plug.all_attached(all, n);
        let d = all[n - 1];
        lemma_display_found(before.monitors, d.id);
        if first_where(before.monitors, is_display(d.id)) is None {
            let c = before.choice_for(d.id);
            lemma_choice_is_idle(before, d.id);
            law_growing_keeps_workspaces(before.wm.workspaces, c + 1);
            let new = Monitor { active_workspace: c, ..d };
            let m = after.monitors;
            assert(m == before.monitors.push(new));
            assert(after.wm.workspaces.len() == if c < before.wm.workspaces.len() {
                before.wm.workspaces.len()
            } else {
                (c + 1) as nat
            });
            assert forall|i: int, j: int| 0 <= i < j < m.len() implies (#[trigger] m[i]).id != (
            #[trigger] m[j]).id by {
                assert(m[i] == before.monitors[i]);
                if j < before.monitors.len() {
                    assert(m[j] == before.monitors[j]);
                }
            }
            assert forall|i: int, j: int| 0 <= i < j < m.len() implies (
            #[trigger] m[i]).active_workspace != (#[trigger] m[j]).active_workspace by {
                assert(m[i] == before.monitors[i]);
                if j < before.monitors.len() {
                    assert(m[j] == before.monitors[j]);
                }
            }
            assert forall|i: int, k: int| 0 <= i < m.len() && 0 <= k < wm.monitors.len() && (
            #[trigger] m[i]).id == (#[trigger] wm.monitors[k]).id implies m[i].active_workspace
                == wm.monitors[k].active_workspace by {
                if i < before.monitors.len() {
                    assert(m[i] == before.monitors[i]);
                } else {
                    assert(has_display(wm.monitors, all[n - 1].id));
                }
            }
            assert forall|i: int| #![trigger m[i]] 0 <= i < m.len() implies has_display(
                all,
                m[i].id,
            ) && m[i].active_workspace < after.wm.workspaces.len() by {
                if i < before.monitors.len() {
                    assert(m[i] == before.monitors[i]);
                } else {
                    assert(all[n - 1].id == m[i].id);
                }
            }
            assert forall|id: MonitorId| has_display(before.monitors, id) implies #[trigger]
                has_display(m, id) by {
                let i = choose|i: int|
                    0 <= i < before.monitors.len() && (#[trigger] before.monitors[i]).id == id;
                assert(m[i].id == id);
            }
            assert forall|j: int| 0 <= j < n implies has_display(m, (#[trigger] all[j]).id) by {
                if j == n - 1 {
                    assert(m[m.len() - 1].id == d.id);
                }
            }
        }
    }
}

/// The monitors that come out of displays that came and went.
proof fn lemma_replugged(wm: Wm, displays: Seq<Monitor>) -> (done: Plug)
    requires
        wm.sound(),
        shown_once(wm),
        distinct_displays(wm.monitors),
        distinct_displays(displays),
        displays.len() > 0,
        wm.workspaces.len() + displays.len() < usize::MAX,
    ensures
        ({
            let all = left_to_right(displays);
            let n = all.len() as int;
            &&& done == wm.survivors(all, n).all_orphaned(
                all,
                wm.monitors.len() as int,
            ).all_attached(all, n)
            &&& n == displays.len()
            &&& plugged_well(wm, done, all, n)
            &&& done.wm.workspaces.len() <= usize::MAX
            &&& done.monitors.len() <= 2 * n
        }),
{
    let all = left_to_right(displays);
    let n = all.len() as int;
    lemma_sorted_displays(displays);
    lemma_sorted_keeps(displays, further_right());
    lemma_survivors(wm, all, n);
    let kept = wm.survivors(all, n);
    let count = wm.monitors.len() as int;
    lemma_orphaned(kept, all, count);
    let plug = kept.all_orphaned(all, count);
    assert(all.take(n) =~= all);
    assert(plugged_well(wm, plug, all, 0)) by {
        assert forall|i: int, j: int| 0 <= i < j < plug.monitors.len() implies (
        #[trigger] plug.monitors[i]).active_workspace != (
        #[trigger] plug.monitors[j]).active_workspace by {
            lemma_kept_apart(wm, plug.monitors, i, j);
        }
        assert forall|i: int| #![trigger plug.monitors[i]]
            0 <= i < plug.monitors.len() implies has_display(all, plug.monitors[i].id)
            && plug.monitors[i].active_workspace < plug.wm.workspaces.len() by {
            let k = choose|k: int|
                0 <= k < wm.monitors.len() && (#[trigger] wm.monitors[k]).id
                    == plug.monitors[i].id;
            assert(plug.monitors[i].active_workspace == wm.monitors[k].active_workspace);
        }
    }
    lemma_attached(wm, plug, all, n);
    plug.all_attached(all, n)
}

/// When displays come and go, each connected one has a monitor and nothing
/// else has, those that stay go on showing their workspaces, and no monitor
/// comes to show what another one shows.
pub proof fn law_displays_keep_their_workspaces(wm: Wm, displays: Seq<Monitor>)
    requires
        wm.sound(),
        shown_once(wm),
        distinct_displays(wm.monitors),
        distinct_displays(displays),
        displays.len() > 0,
        2 * displays.len() < usize::MAX,
        wm.workspaces.len() + displays.len() < usize::MAX,
    ensures
        ({
            let after = wm.replugged(displays);
            &&& distinct_displays(after.monitors)
            &&& forall|id: MonitorId| #[trigger]
                has_display(after.monitors, id) <==> has_display(displays, id)
            &&& keeps_workspaces(wm.monitors, after.monitors)
            &&& shown_once(after)
        }),
{
    let all = left_to_right(displays);
    lemma_sorted_displays(displays);
    let done = lemma_replugged(wm, displays);
    let after = wm.replugged(displays);
    let synced = (Wm {
        monitors: done.monitors,
        specials: wm.specials_for(done.monitors),
        ..done.wm
    }).visibility_synced();
    assert(has_display(done.monitors, all[0].id));
    let display = if wm.focused_monitor < wm.monitors.len() {
        Some(wm.monitors[wm.focused_monitor as int].id)
    } else {
        None
    };
    lemma_focus_kept(synced, display);
    assert(after == synced.focus_kept(display).laid_out_twice().fix_started());
    assert(after.monitors == done.monitors);
    assert forall|id: MonitorId| #[trigger] has_display(after.monitors, id) <==> has_display(
        displays,
        id,
    ) by {
        if has_display(after.monitors, id) {
            let i = choose|i: int|
                0 <= i < after.monitors.len() && (#[trigger] after.monitors[i]).id == id;
            assert(has_display(all, done.monitors[i].id));
        }
        if has_display(displays, id) {
            assert(has_display(all, id));
            let j = choose|j: int| 0 <= j < all.len() && (#[trigger] all[j]).id == id;
            assert(has_display(done.monitors, all[j].id));
        }
    }
}

/// There are not more monitors than can be counted.
pub proof fn lemma_few_monitors(wm: Wm, displays: Seq<Monitor>)
    requires
        wm.sound(),
        shown_once(wm),
        distinct_displays(wm.monitors),
        distinct_displays(displays),
        displays.len() > 0,
        2 * displays.len() < usize::MAX,
        wm.workspaces.len() + displays.len() < usize::MAX,
    ensures
        wm.replugged(displays).monitors.len() <= usize::MAX,
{
    let all = left_to_right(displays);
    lemma_sorted_displays(displays);
    let done = lemma_replugged(wm, displays);
    let synced = (Wm {
        monitors: done.monitors,
        specials: wm.specials_for(done.monitors),
        ..done.wm
    }).visibility_synced();
    assert(has_display(done.monitors, all[0].id));
    let display = if wm.focused_monitor < wm.monitors.len() {
        Some(wm.monitors[wm.focused_monitor as int].id)
    } else {
        None
    };
    lemma_focus_kept(synced, display);
}

proof fn lemma_kept_apart(wm: Wm, monitors: Seq<Monitor>, i: int, j: int)
    requires
        shown_once(wm),
        distinct_displays(monitors),
        keeps_workspaces(wm.monitors, monitors),
        0 <= i < j < monitors.len(),
        has_display(wm.monitors, monitors[i].id),
        has_display(wm.monitors, monitors[j].id),
    ensures
        monitors[i].active_workspace != monitors[j].active_workspace,
{
    let a = choose|k: int|
        0 <= k < wm.monitors.len() && (#[trigger] wm.monitors[k]).id == monitors[i].id;
    let b = choose|k: int|
        0 <= k < wm.monitors.len() && (#[trigger] wm.monitors[k]).id == monitors[j].id;
    assert(monitors[i].id != monitors[j].id);
    assert(a != b);
    if a < b {
        assert(wm.monitors[a].active_workspace != wm.monitors[b].active_workspace);
    } else {
        assert(wm.monitors[b].active_workspace != wm.monitors[a].active_workspace);
    }
}

// --- Windows of displays that are gone ---

/// Whether a window was made transparent since some earlier state.
pub open spec fn faded_since(after: Wm, before: Wm, w: WindowId) -> bool {
    exists|i: int|
        before.effects.len() <= i < after.effects.len() && (
        #[trigger] after.effects[i] matches Effect::Fade { id } && id == w)
}

proof fn lemma_orphaned_keeps(plug: Plug, displays: Seq<Monitor>, n: int)
    requires
        0 <= n <= plug.wm.monitors.len(),
        forall|k: int|
            0 <= k < plug.wm.monitors.len() ==> (#[trigger] plug.wm.monitors[k]).active_workspace
                < plug.wm.workspaces.len(),
    ensures
        ({
            let after = plug.all_orphaned(displays, n).wm;
            &&& after.workspaces.len() == plug.wm.workspaces.len()
            &&& forall|i: int|
                0 <= i < plug.wm.workspaces.len() ==> (#[trigger] after.workspaces[i]).tree
                    == plug.wm.workspaces[i].tree && after.workspaces[i].floating
                    == plug.wm.workspaces[i].floating
            &&& after.effects.len() >= plug.wm.effects.len()
        }),
    decreases n,
{
    if n > 0 {
        lemma_orphaned_keeps(plug, displays, n - 1);
        let id = plug.wm.monitors[n - 1].id;
        lemma_first_where_found(plug.wm.monitors, is_display(id));
        if first_where(plug.wm.monitors, is_display(id)) is None {
            assert(!is_display(id)(plug.wm.monitors[n - 1]));
        }
    }
}

/// The windows of the workspace that a display showed that is gone are made transparent.
pub proof fn law_windows_of_gone_display_fade(
    plug: Plug,
    displays: Seq<Monitor>,
    n: int,
    k: int,
    m: int,
)
    requires
        0 <= k < n <= plug.wm.monitors.len(),
        forall|j: int|
            0 <= j < plug.wm.monitors.len() ==> (#[trigger] plug.wm.monitors[j]).active_workspace
                < plug.wm.workspaces.len(),
        forall|j: int|
            0 <= j < k ==> (#[trigger] plug.wm.monitors[j]).id != plug.wm.monitors[k].id,
        forall|j: int|
            0 <= j < displays.len() ==> (#[trigger] displays[j]).id != plug.wm.monitors[k].id,
        0 <= m < plug.wm.workspaces[plug.wm.monitors[k].active_workspace as int].window_ids().len(),
    ensures
        faded_since(
            plug.all_orphaned(displays, n).wm,
            plug.wm,
            plug.wm.workspaces[plug.wm.monitors[k].active_workspace as int].window_ids()[m],
        ),
    decreases n,
{
    let before = plug.all_orphaned(displays, n - 1).wm;
    let after = plug.all_orphaned(displays, n).wm;
    let idx = plug.wm.monitors[k].active_workspace as int;
    let ids = plug.wm.workspaces[idx].window_ids();
    lemma_orphaned_keeps(plug, displays, n - 1);
    let id = plug.wm.monitors[n - 1].id;
    lemma_first_where_found(plug.wm.monitors, is_display(id));
    lemma_first_where_found(displays, is_display(id));
    if k < n - 1 {
        law_windows_of_gone_display_fade(plug, displays, n - 1, k, m);
        let e = choose|e: int|
            plug.wm.effects.len() <= e < before.effects.len() && (
            #[trigger] before.effects[e] matches Effect::Fade { id } && id == ids[m]);
        assert(after.effects[e] == before.effects[e]);
    } else {
        let p = is_display(id);
        assert(is_first_where(plug.wm.monitors, p, k));
        lemma_first_where(plug.wm.monitors, p, k);
        if let Some(j) = first_where(displays, p) {
            assert(displays[j].id == id);
        }
        assert(before.workspaces[idx].window_ids() == ids);
        let e = before.effects.len() + m;
        assert(after.effects[e] == (Effect::Fade { id: ids[m] }));
    }
}

} // verus!
