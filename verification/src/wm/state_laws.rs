//! Laws of the window manager as a whole.
use vstd::prelude::*;
use crate::seqs::{
    first_where, is_first_index, lemma_first_where, lemma_first_where_found, lemma_first_where_none,
    lemma_position, lemma_position_exists, position,
};
use crate::wm::effects::{float_geometries, shows_above_of};
use crate::wm::focus::{
    after, is_focus_of, is_live, is_memory_of, is_memory_without, opposite, remembered_target,
    with_memory, with_recent, RECENT_FOCUS_CAPACITY, WORKSPACE_SWITCH_SILENCE,
};
use crate::wm::geometry::Direction;
use crate::wm::monitor::{is_display, law_next_prev_cycle, ring_next, ring_prev, shows, Monitor};
use crate::wm::state::{FocusMemory, RecentFocus, Wm};
use crate::wm::switching::{neighbour_target, overlay_rect};
use crate::wm::window::WindowId;
use crate::wm::workspace::{
    holds_window, index_of_id, is_named, law_growing_keeps_workspaces, law_workspace_by_name,
    WorkspaceTarget, Ws, WsId,
};

verus! {

// --- Focus memory ---

/// Turning round twice leads nowhere.
pub proof fn law_opposite_twice(d: Direction)
    ensures
        opposite(opposite(d)) == d,
        opposite(d) != d,
{
}

proof fn lemma_with_memory(memory: Seq<FocusMemory>, m: FocusMemory)
    ensures
        remembered_target(with_memory(memory, m), m.from, m.direction) == Some(m.to),
        forall|from: WindowId, d: Direction|
            (from != m.from || d != m.direction) ==> #[trigger] remembered_target(
                with_memory(memory, m),
                from,
                d,
            ) == remembered_target(memory, from, d),
{
    let p = is_memory_of(m.from, m.direction);
    let now = with_memory(memory, m);
    lemma_first_where_found(memory, p);
    let at = match first_where(memory, p) {
        Some(i) => i,
        None => memory.len() as int,
    };
    assert(now[at] == m);
    assert forall|j: int| 0 <= j < at implies !p(#[trigger] now[j]) by {
        assert(now[j] == memory[j]);
        assert(!p(memory[j]));
    }
    lemma_first_where(now, p, at);
    assert forall|from: WindowId, d: Direction|
        (from != m.from || d != m.direction) implies #[trigger] remembered_target(now, from, d)
        == remembered_target(memory, from, d) by {
        let q = is_memory_of(from, d);
        lemma_first_where_found(memory, q);
        match first_where(memory, q) {
            Some(k) => {
                assert(q(memory[k]));
                if first_where(memory, p) is Some && k == at {
                    assert(p(memory[at]));
                }
                assert(now[k] == memory[k]);
                assert forall|j: int| 0 <= j < k implies !q(#[trigger] now[j]) by {
                    if j != at {
                        assert(now[j] == memory[j]);
                        assert(!q(memory[j]));
                    }
                }
                lemma_first_where(now, q, k);
            },
            None => {
                assert forall|j: int| 0 <= j < now.len() implies !q(#[trigger] now[j]) by {
                    if j != at {
                        assert(now[j] == memory[j]);
                        assert(!q(memory[j]));
                    }
                }
                lemma_first_where_none(now, q);
            },
        }
    }
}

/// After the focus went in a direction, going back leads to where it came
/// from, and going again leads to where it went.
pub proof fn law_focus_leads_back(wm: Wm, from: WindowId, d: Direction, to: WindowId)
    requires
        from != to,
    ensures
        remembered_target(wm.remembered(from, d, to).memory, to, opposite(d)) == Some(from),
        remembered_target(wm.remembered(from, d, to).memory, from, d) == Some(to),
{
    let there = FocusMemory { from, direction: d, to };
    let back = FocusMemory { from: to, direction: opposite(d), to: from };
    lemma_with_memory(wm.memory, there);
    lemma_with_memory(with_memory(wm.memory, there), back);
}

/// A window that is gone is remembered nowhere.
pub proof fn law_gone_window_is_forgotten(wm: Wm, w: WindowId)
    ensures
        forall|i: int|
            0 <= i < wm.forgot(w).memory.len() ==> (#[trigger] wm.forgot(w).memory[i]).from != w
                && wm.forgot(w).memory[i].to != w,
{
    lemma_filter_holds(wm.memory, is_memory_without(w));
    let kept = wm.forgot(w).memory;
    assert forall|i: int| 0 <= i < kept.len() implies (#[trigger] kept[i]).from != w && kept[i].to
        != w by {
        assert(is_memory_without(w)(kept[i]));
    }
}

proof fn lemma_filter_holds<T>(s: Seq<T>, p: spec_fn(T) -> bool)
    ensures
        forall|i: int| 0 <= i < s.filter(p).len() ==> p(#[trigger] s.filter(p)[i]),
        s.filter(p).len() <= s.len(),
    decreases s.len(),
{
    reveal(Seq::filter);
    if s.len() > 0 {
        lemma_filter_holds(s.drop_last(), p);
    }
}

// --- Own focus changes ---

/// No more own focus changes are kept than there is room for.
pub proof fn law_recent_focus_stays_small(wm: Wm, id: WindowId)
    requires
        wm.recent.len() <= RECENT_FOCUS_CAPACITY,
    ensures
        wm.marked(id).recent.len() <= RECENT_FOCUS_CAPACITY,
        wm.recent_pruned().recent.len() <= RECENT_FOCUS_CAPACITY,
{
    lemma_filter_holds(wm.recent, is_live(wm.now));
    let s = wm.recent_pruned();
    assert forall|r: RecentFocus| #[trigger] with_recent(s.recent, r).len()
        <= RECENT_FOCUS_CAPACITY by {
        lemma_first_where_found(s.recent, is_focus_of(r.id, r.pid));
    }
}

/// For a while after a switch, what gets the focus from outside is passed
/// over, whichever program and window it is.
pub proof fn law_silence_after_switch(wm: Wm, later: u64, pid: i32, requested: Option<WindowId>)
    requires
        wm.now <= later < after(wm.now, WORKSPACE_SWITCH_SILENCE),
    ensures
        ({
            let quiet = Wm { now: later, ..wm.silenced() };
            quiet.app_focus_adopted(pid, requested) == quiet
        }),
{
}

// --- What a focus change leaves alone ---

/// A state has the same monitors, overlays and names of workspaces.
pub open spec fn same_places(a: Wm, b: Wm) -> bool {
    &&& a.monitors == b.monitors
    &&& a.focused_monitor == b.focused_monitor
    &&& a.specials == b.specials
    &&& a.silence == b.silence
    &&& a.now == b.now
    &&& a.workspaces.len() == b.workspaces.len()
    &&& forall|i: int|
        0 <= i < a.workspaces.len() ==> (#[trigger] a.workspaces[i]).id == b.workspaces[i].id
}

// --- Switching ---

/// Every monitor shows a workspace that exists, one monitor has the focus, and
/// there are not more workspaces than can be counted.
pub open spec fn seated(wm: Wm) -> bool {
    &&& wm.focused_monitor < wm.monitors.len() <= usize::MAX
    &&& wm.workspaces.len() <= usize::MAX
    &&& forall|i: int|
        0 <= i < wm.monitors.len() ==> (#[trigger] wm.monitors[i]).active_workspace
            < wm.workspaces.len()
}

/// Whether no two monitors show the same workspace.
pub open spec fn shown_once(wm: Wm) -> bool {
    forall|i: int, j: int|
        0 <= i < j < wm.monitors.len() ==> (#[trigger] wm.monitors[i]).active_workspace != (
        #[trigger] wm.monitors[j]).active_workspace
}

/// Giving a window the focus moves no workspace.
pub proof fn law_focus_moves_no_workspace(wm: Wm, id: WindowId, activate: bool)
    requires
        seated(wm),
    ensures
        same_places(wm, wm.focused_on(id, activate)),
{
    reveal(Wm::focused_on);
    lemma_first_where_found(wm.workspaces, holds_window(id));
    let home = wm.focus_home(id);
    let ws = wm.workspaces[home as int];
    assert(ws.focus_given(id).id == ws.id);
    let after = wm.focused_on(id, activate);
    assert(after.workspaces == wm.workspaces.update(home as int, ws.focus_given(id)));
    assert forall|i: int| 0 <= i < wm.workspaces.len() implies (#[trigger] wm.workspaces[i]).id
        == after.workspaces[i].id by {}
}

proof fn lemma_arrived_places(wm: Wm, ws_idx: usize)
    requires
        seated(wm),
        ws_idx < wm.workspaces.len(),
    ensures
        same_places(wm, wm.arrived(ws_idx)),
{
    if let Some(w) = wm.workspaces[ws_idx as int].focused {
        law_focus_moves_no_workspace(wm, w, true);
    }
}

/// Where a workspace is once it exists lies among the workspaces.
pub proof fn lemma_index_within(wm: Wm, id: WsId)
    requires
        seated(wm),
        wm.with_workspace(id).workspaces.len() <= usize::MAX,
    ensures
        seated(wm.with_workspace(id)),
        0 <= index_of_id(wm.workspaces, id) < wm.with_workspace(id).workspaces.len(),
{
    law_workspace_by_name(wm.workspaces, id);
    lemma_first_where_found(wm.workspaces, is_named(id));
    if first_where(wm.workspaces, is_named(id)) is None {
        if let WsId::Numbered(n) = id {
            law_growing_keeps_workspaces(wm.workspaces, index_of_id(wm.workspaces, id) + 1);
        }
    }
}

/// The monitor for a workspace exists.
pub proof fn lemma_monitor_for(wm: Wm, ws_idx: usize)
    requires
        seated(wm),
    ensures
        wm.monitor_for(ws_idx) < wm.monitors.len(),
{
    if let Some(prefs) = wm.prefs_of(ws_idx) {
        if let Some(m) = prefs.monitor {
            lemma_first_where_found(wm.monitors, is_display(m.display_id));
        }
    }
}

/// Showing a workspace on a monitor changes what that monitor shows and the
/// focus, and leaves the other monitors and the names alone.
proof fn lemma_shown_on(wm: Wm, ws_idx: usize, mi: usize)
    requires
        seated(wm),
        ws_idx < wm.workspaces.len(),
        mi < wm.monitors.len(),
    ensures
        ({
            let after = wm.shown_on(ws_idx, mi);
            &&& after.focused_monitor == mi
            &&& after.monitors == wm.monitors.update(
                mi as int,
                Monitor { active_workspace: ws_idx, ..wm.monitors[mi as int] },
            )
            &&& after.specials == wm.specials
            &&& after.workspaces.len() == wm.workspaces.len()
            &&& forall|i: int|
                0 <= i < wm.workspaces.len() ==> (#[trigger] after.workspaces[i]).id
                    == wm.workspaces[i].id
        }),
{
    let after = wm.shown_on(ws_idx, mi);
    assert forall|i: int| 0 <= i < wm.workspaces.len() implies (#[trigger] after.workspaces[i]).id
        == wm.workspaces[i].id by {}
}

proof fn lemma_switched(wm: Wm, id: WsId)
    requires
        seated(wm),
        wm.with_workspace(id).workspaces.len() <= usize::MAX,
    ensures
        ({
            let s = wm.with_workspace(id);
            let after = wm.switched(id);
            let idx = index_of_id(wm.workspaces, id);
            &&& seated(after)
            &&& after.active_idx() == idx
            &&& after.workspaces.len() == s.workspaces.len()
            &&& shown_once(wm) ==> shown_once(after)
            &&& forall|i: int|
                0 <= i < s.workspaces.len() ==> (#[trigger] after.workspaces[i]).id
                    == s.workspaces[i].id
        }),
{
    let idx = index_of_id(wm.workspaces, id) as usize;
    let s = wm.with_workspace(id);
    lemma_index_within(wm, id);
    if idx != s.active_idx() {
        let quiet = s.silenced();
        lemma_first_where_found(quiet.monitors, shows(idx));
        match quiet.showing(idx) {
            Some(mi) => {
                let there = Wm { focused_monitor: mi, hovered: None, ..quiet };
                assert(shows(idx)(quiet.monitors[mi as int]));
                assert(seated(there));
                lemma_arrived_places(there, idx);
                let after = wm.switched(id);
                assert(after == there.arrived(idx));
                assert forall|i: int| 0 <= i < s.workspaces.len() implies (
                #[trigger] after.workspaces[i]).id == s.workspaces[i].id by {
                    assert(there.workspaces[i].id == after.workspaces[i].id);
                }
            },
            None => {
                let mi = quiet.monitor_for(idx);
                lemma_monitor_for(quiet, idx);
                lemma_shown_on(quiet, idx, mi);
                let shown = quiet.shown_on(idx, mi);
                let after = wm.switched(id);
                assert(after.monitors == shown.monitors);
                assert(after.workspaces == shown.workspaces);
                assert forall|i: int| 0 <= i < after.monitors.len() implies (
                #[trigger] after.monitors[i]).active_workspace < after.workspaces.len() by {
                    if i != mi {
                        assert(after.monitors[i] == quiet.monitors[i]);
                    }
                }
                if shown_once(wm) {
                    assert forall|i: int, j: int| 0 <= i < j < after.monitors.len() implies (
                    #[trigger] after.monitors[i]).active_workspace != (
                    #[trigger] after.monitors[j]).active_workspace by {
                        if i != mi {
                            assert(after.monitors[i] == wm.monitors[i]);
                            assert(!shows(idx)(quiet.monitors[i]));
                        }
                        if j != mi {
                            assert(after.monitors[j] == wm.monitors[j]);
                            assert(!shows(idx)(quiet.monitors[j]));
                        }
                    }
                }
            },
        }
    }
}

/// The workspace that was asked for is the active one, no monitor comes to
/// show what another one shows, and every workspace keeps its place and name.
pub proof fn law_switch_reaches_workspace(wm: Wm, id: WsId)
    requires
        seated(wm),
        wm.with_workspace(id).workspaces.len() <= usize::MAX,
    ensures
        wm.switched(id).active_idx() == index_of_id(wm.workspaces, id),
        !(id is Numbered) ==> wm.switched(id).active().id == id,
        first_where(wm.workspaces, is_named(id)) is Some ==> wm.switched(id).active().id == id,
        shown_once(wm) ==> shown_once(wm.switched(id)),
        wm.switched(id).workspaces.len() >= wm.workspaces.len(),
        forall|i: int|
            0 <= i < wm.workspaces.len() ==> (#[trigger] wm.switched(id).workspaces[i]).id
                == wm.workspaces[i].id,
{
    lemma_switched(wm, id);
    lemma_index_within(wm, id);
    law_workspace_by_name(wm.workspaces, id);
    lemma_first_where_found(wm.workspaces, is_named(id));
    let s = wm.with_workspace(id);
    let after = wm.switched(id);
    let idx = index_of_id(wm.workspaces, id);
    assert(after.workspaces[idx].id == s.workspaces[idx].id);
    if first_where(wm.workspaces, is_named(id)) is Some {
        assert(is_named(id)(wm.workspaces[idx]));
    }
    assert forall|i: int| 0 <= i < wm.workspaces.len() implies (#[trigger] after.workspaces[i]).id
        == wm.workspaces[i].id by {
        assert(s.workspaces[i] == wm.workspaces[i]);
    }
}

/// Switching to the active workspace does nothing.
pub proof fn law_switch_to_active_does_nothing(wm: Wm)
    requires
        seated(wm),
        first_where(wm.workspaces, is_named(wm.active().id)) == Some(wm.active_idx() as int),
    ensures
        wm.switched(wm.active().id) == wm,
{
}

/// A switch to a workspace that another monitor shows moves the focus there
/// and nothing else.
pub proof fn law_visible_workspace_stays_in_place(wm: Wm, id: WsId)
    requires
        seated(wm),
        first_where(wm.workspaces, is_named(id)) is Some,
        wm.showing(index_of_id(wm.workspaces, id) as usize) is Some,
    ensures
        wm.switched(id).monitors == wm.monitors,
{
    lemma_switched(wm, id);
    lemma_first_where_found(wm.workspaces, is_named(id));
    let idx = index_of_id(wm.workspaces, id) as usize;
    let quiet = wm.with_workspace(id).silenced();
    assert(quiet.showing(idx) == wm.showing(idx));
    lemma_first_where_found(quiet.monitors, shows(idx));
    if idx != wm.active_idx() {
        let mi = quiet.showing(idx)->0;
        let there = Wm { focused_monitor: mi, hovered: None, ..quiet };
        assert(seated(there));
        lemma_arrived_places(there, idx);
    }
}

// --- Visibility ---

/// A workspace is marked visible if and only if a monitor shows it or an
/// overlay does.
pub proof fn law_visibility_is_marked(wm: Wm, i: int)
    requires
        0 <= i < wm.workspaces.len(),
    ensures
        wm.visibility_synced().workspaces[i].visible == wm.visibility_synced().is_visible(
            i as usize,
        ),
        wm.visibility_synced().visibility_synced() == wm.visibility_synced(),
{
    let once = wm.visibility_synced();
    assert(once.visibility_synced().workspaces =~= once.workspaces);
}

// --- Overlays ---

/// Toggling an overlay lays it over the focused monitor, or takes it away
/// where it is there.
pub proof fn law_special_toggles(wm: Wm, name: Seq<char>)
    requires
        seated(wm),
        wm.specials.len() <= wm.monitors.len(),
        wm.with_workspace(WsId::Special(name)).workspaces.len() <= usize::MAX,
        forall|i: int|
            0 <= i < wm.specials.len() ==> ((#[trigger] wm.specials[i]) is Some ==> wm.specials[i]->0
                < wm.workspaces.len()),
    ensures
        ({
            let idx = index_of_id(wm.workspaces, WsId::Special(name)) as usize;
            let mi = wm.focused_monitor;
            wm.special_toggled(name).special_on(mi) == if wm.special_on(mi) == Some(idx) {
                None
            } else {
                Some(idx)
            }
        }),
{
    let id = WsId::Special(name);
    let idx = index_of_id(wm.workspaces, id) as usize;
    let s = wm.with_workspace(id).specials_padded();
    let mi = s.focused_monitor;
    lemma_index_within(wm, id);
    law_workspace_by_name(wm.workspaces, id);
    let bare = s.special_dismissed(mi);
    assert(bare.monitors == s.monitors && bare.focused_monitor == mi);
    assert(bare.workspaces.len() == s.workspaces.len());
    assert(bare.specials.len() == s.specials.len());
    assert(bare.specials[mi as int] is None);
    assert(seated(bare));
    if s.specials[mi as int] == Some(idx) {
        if let Some(w) = bare.active().focused {
            law_focus_moves_no_workspace(bare, w, true);
        }
    } else {
        let shown = Wm {
            specials: bare.specials.update(mi as int, Some(idx)),
            workspaces: bare.workspaces.update(
                idx as int,
                Ws { last_monitor: Some(mi), ..bare.workspaces[idx as int] },
            ),
            ..bare
        }.visibility_synced();
        let after = bare.special_shown(mi, idx, name);
        let ws = shown.workspaces[idx as int];
        let tiles = shown.tiles(
            idx,
            overlay_rect(shown.rect_on(mi), shown.overlay_named(name)),
        );
        let more = shown.did(
            shows_above_of(tiles) + shows_above_of(float_geometries(ws.floating)),
        );
        assert(seated(more));
        let target = match ws.focused {
            Some(w) => Some(w),
            None => if tiles.len() > 0 {
                Some(tiles[0].0)
            } else {
                None
            },
        };
        if let Some(w) = target {
            law_focus_moves_no_workspace(more, w, true);
        }
        assert(after.specials == shown.specials);
    }
}

// --- Monitors ---

/// Going to the next monitor and back, or back and to the next, leads to the
/// one that had the focus.
pub proof fn law_monitor_there_and_back(wm: Wm, forward: bool)
    requires
        seated(wm),
    ensures
        wm.monitor_stepped(forward).monitor_stepped(!forward).focused_monitor
            == wm.focused_monitor,
        wm.monitor_stepped(forward).monitors == wm.monitors,
{
    if wm.monitors.len() > 1 {
        let n = wm.monitors.len() as int;
        law_next_prev_cycle(n, wm.focused_monitor as int);
        let once = wm.monitor_stepped(forward);
        lemma_monitor_focused(wm, wm.monitor_beside(forward));
        assert(seated(once));
        lemma_monitor_focused(once, once.monitor_beside(!forward));
    }
}

pub proof fn lemma_monitor_focused(wm: Wm, mi: usize)
    requires
        seated(wm),
        mi < wm.monitors.len(),
    ensures
        wm.monitor_focused(mi).focused_monitor == mi,
        wm.monitor_focused(mi).monitors == wm.monitors,
        wm.monitor_focused(mi).workspaces.len() == wm.workspaces.len(),
{
    let s = Wm { focused_monitor: mi, ..wm }.laid_out();
    assert(s.monitors == wm.monitors);
    assert(seated(s));
    lemma_arrived_places(s, s.active_idx());
}

/// The workspace after the one before a workspace, or before the one after it,
/// is that workspace again, if none is listed twice.
pub proof fn law_workspace_there_and_back(
    targets: Seq<WorkspaceTarget>,
    current: WorkspaceTarget,
    forward: bool,
)
    requires
        targets.no_duplicates(),
        targets.contains(current),
    ensures
        neighbour_target(targets, current, forward) is Some,
        neighbour_target(
            targets,
            neighbour_target(targets, current, forward)->0,
            !forward,
        ) == Some(current),
{
    let n = targets.len() as int;
    lemma_position_exists(targets, current);
    let i = position(targets, current)->0;
    law_next_prev_cycle(n, i);
    let k = if forward {
        ring_next(n, i)
    } else {
        ring_prev(n, i)
    };
    assert(is_first_index(targets, targets[k], k));
    lemma_position(targets, targets[k], k);
}

} // verus!
