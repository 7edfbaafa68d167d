//! Laws of windows and what moves them: a switch of the focus or of the
//! workspace moves none, and a new window enters one workspace.
use vstd::prelude::*;
use crate::seqs::{first_where, lemma_first_where_found};
use crate::text::{after_prefix, starts_with};
use crate::wm::geometry::Rect;
use crate::wm::lifecycle::ruling_of;
use crate::wm::monitor::shows;
use crate::wm::state::{NewWin, Wm};
use crate::wm::state_laws::{lemma_index_within, lemma_monitor_for, seated};
use crate::wm::window::{with_window, WindowId};
use crate::wm::window_event::floats_by_itself;
use crate::wm::workspace::{
    grown, holds_window, index_of_id, is_named, law_growing_keeps_workspaces, target_named, with_id,
    Ws, WsId,
};
use crate::wm::workspace_laws::{
    in_one_place, law_focus_keeps_windows, law_fresh_is_tidy, law_placed_window_is_there, tidy,
};

verus! {

/// Whether every workspace is tidy.
pub open spec fn all_tidy(workspaces: Seq<Ws>) -> bool {
    forall|i: int| 0 <= i < workspaces.len() ==> tidy(#[trigger] workspaces[i])
}

/// Whether each workspace has the windows that it had, tiled or floating as
/// they were, and the workspaces that were added have none.
pub open spec fn keeps_windows(was: Seq<Ws>, now: Seq<Ws>) -> bool {
    &&& was.len() <= now.len()
    &&& forall|i: int, w: WindowId|
        0 <= i < was.len() ==> (#[trigger] now[i].holds(w) <==> was[i].holds(w))
    &&& forall|i: int, w: WindowId|
        0 <= i < was.len() ==> (#[trigger] now[i].floats(w) <==> was[i].floats(w))
    &&& forall|i: int, w: WindowId|
        was.len() <= i < now.len() ==> !(#[trigger] now[i].holds(w))
}

pub proof fn lemma_keeps_through(a: Seq<Ws>, b: Seq<Ws>, c: Seq<Ws>)
    requires
        keeps_windows(a, b),
        keeps_windows(b, c),
    ensures
        keeps_windows(a, c),
{
    assert forall|i: int, w: WindowId| 0 <= i < a.len() implies (#[trigger] c[i].holds(w)
        <==> a[i].holds(w)) by {
        assert(b[i].holds(w) <==> a[i].holds(w));
    }
    assert forall|i: int, w: WindowId| 0 <= i < a.len() implies (#[trigger] c[i].floats(w)
        <==> a[i].floats(w)) by {
        assert(b[i].floats(w) <==> a[i].floats(w));
    }
    assert forall|i: int, w: WindowId| a.len() <= i < c.len() implies !(#[trigger] c[i].holds(
        w,
    )) by {
        if i < b.len() {
            assert(c[i].holds(w) <==> b[i].holds(w));
        }
    }
}

/// Windows that stay where they are stay in one place.
pub proof fn lemma_kept_in_one_place(was: Seq<Ws>, now: Seq<Ws>)
    requires
        in_one_place(was),
        keeps_windows(was, now),
        all_tidy(now),
    ensures
        in_one_place(now),
{
    assert forall|i: int, j: int, w: WindowId| 0 <= i < j < now.len() implies !(
    #[trigger] now[i].holds(w) && #[trigger] now[j].holds(w)) by {
        if j < was.len() {
            assert(now[i].holds(w) <==> was[i].holds(w));
            assert(now[j].holds(w) <==> was[j].holds(w));
        }
    }
}

/// A workspace with the same tree and floating windows has the same windows.
pub proof fn lemma_same_content(was: Seq<Ws>, now: Seq<Ws>)
    requires
        all_tidy(was),
        was.len() == now.len(),
        forall|i: int|
            0 <= i < was.len() ==> (#[trigger] now[i]).tree == was[i].tree && now[i].floating
                == was[i].floating,
    ensures
        all_tidy(now),
        keeps_windows(was, now),
{
    assert forall|i: int| 0 <= i < now.len() implies tidy(#[trigger] now[i]) by {
        assert(tidy(was[i]));
        assert forall|w: WindowId| !(#[trigger] now[i].tree.windows().contains(w)
            && now[i].floats(w)) by {
            assert(!(was[i].tree.windows().contains(w) && was[i].floats(w)));
        }
    }
}

/// Giving a window the focus moves no window.
pub proof fn law_focus_moves_no_window(wm: Wm, id: WindowId, activate: bool)
    requires
        seated(wm),
        all_tidy(wm.workspaces),
    ensures
        keeps_windows(wm.workspaces, wm.focused_on(id, activate).workspaces),
        all_tidy(wm.focused_on(id, activate).workspaces),
{
    reveal(Wm::focused_on);
    lemma_first_where_found(wm.workspaces, holds_window(id));
    let home = wm.focus_home(id);
    let ws = wm.workspaces[home as int];
    let after = wm.focused_on(id, activate).workspaces;
    assert(after == wm.workspaces.update(home as int, ws.focus_given(id)));
    law_focus_keeps_windows(ws, id);
    assert forall|i: int| 0 <= i < after.len() implies tidy(#[trigger] after[i]) by {
        if i != home {
            assert(after[i] == wm.workspaces[i]);
        }
    }
    assert forall|i: int, w: WindowId| 0 <= i < wm.workspaces.len() implies (
    #[trigger] after[i].holds(w) <==> wm.workspaces[i].holds(w)) by {
        if i == home {
            assert(ws.focus_given(id).holds(w) <==> ws.holds(w));
        }
    }
    assert forall|i: int, w: WindowId| 0 <= i < wm.workspaces.len() implies (
    #[trigger] after[i].floats(w) <==> wm.workspaces[i].floats(w)) by {
        if i == home {
            assert(ws.focus_given(id).floats(w) <==> ws.floats(w));
        }
    }
}

proof fn lemma_grown_tidy(s: Seq<Ws>, count: int)
    requires
        all_tidy(s),
    ensures
        all_tidy(grown(s, count)),
        keeps_windows(s, grown(s, count)),
    decreases count - s.len(),
{
    if s.len() < count {
        let fresh = Ws::fresh(WsId::Numbered(((s.len() + 1) % 256) as u8));
        law_fresh_is_tidy(WsId::Numbered(((s.len() + 1) % 256) as u8));
        let t = s.push(fresh);
        lemma_pushed_fresh(s, fresh);
        lemma_grown_tidy(t, count);
        lemma_keeps_through(s, t, grown(s, count));
    }
}

proof fn lemma_pushed_fresh(s: Seq<Ws>, fresh: Ws)
    requires
        all_tidy(s),
        tidy(fresh),
        forall|w: WindowId| !#[trigger] fresh.holds(w),
    ensures
        all_tidy(s.push(fresh)),
        keeps_windows(s, s.push(fresh)),
{
    let t = s.push(fresh);
    assert forall|i: int| 0 <= i < t.len() implies tidy(#[trigger] t[i]) by {
        if i < s.len() {
            assert(t[i] == s[i]);
        }
    }
    assert forall|i: int, w: WindowId| 0 <= i < s.len() implies (#[trigger] t[i].holds(w)
        <==> s[i].holds(w)) by {
        assert(t[i] == s[i]);
    }
    assert forall|i: int, w: WindowId| 0 <= i < s.len() implies (#[trigger] t[i].floats(w)
        <==> s[i].floats(w)) by {
        assert(t[i] == s[i]);
    }
}

/// Adding a workspace moves no window.
pub proof fn lemma_with_id_keeps(s: Seq<Ws>, id: WsId)
    requires
        all_tidy(s),
    ensures
        all_tidy(with_id(s, id)),
        keeps_windows(s, with_id(s, id)),
{
    if first_where(s, is_named(id)) is None {
        match id {
            WsId::Numbered(n) => {
                lemma_grown_tidy(s, index_of_id(s, id) + 1);
            },
            _ => {
                law_fresh_is_tidy(id);
                lemma_pushed_fresh(s, Ws::fresh(id));
            },
        }
    }
}

proof fn lemma_arrived_keeps(wm: Wm, ws_idx: usize)
    requires
        seated(wm),
        ws_idx < wm.workspaces.len(),
        all_tidy(wm.workspaces),
    ensures
        keeps_windows(wm.workspaces, wm.arrived(ws_idx).workspaces),
        all_tidy(wm.arrived(ws_idx).workspaces),
{
    match wm.workspaces[ws_idx as int].focused {
        Some(w) => {
            law_focus_moves_no_window(wm, w, true);
        },
        None => {
            lemma_same_content(wm.workspaces, wm.workspaces);
        },
    }
}

proof fn lemma_shown_keeps(wm: Wm, ws_idx: usize, mi: usize)
    requires
        seated(wm),
        ws_idx < wm.workspaces.len(),
        mi < wm.monitors.len(),
        all_tidy(wm.workspaces),
    ensures
        keeps_windows(wm.workspaces, wm.shown_on(ws_idx, mi).workspaces),
        all_tidy(wm.shown_on(ws_idx, mi).workspaces),
{
    let after = wm.shown_on(ws_idx, mi).workspaces;
    assert forall|i: int| 0 <= i < wm.workspaces.len() implies (#[trigger] after[i]).tree
        == wm.workspaces[i].tree && after[i].floating == wm.workspaces[i].floating by {}
    lemma_same_content(wm.workspaces, after);
}

/// A switch to another workspace moves no window.
pub proof fn law_switch_moves_no_window(wm: Wm, id: WsId)
    requires
        seated(wm),
        wm.with_workspace(id).workspaces.len() <= usize::MAX,
        all_tidy(wm.workspaces),
    ensures
        keeps_windows(wm.workspaces, wm.switched(id).workspaces),
        all_tidy(wm.switched(id).workspaces),
        in_one_place(wm.workspaces) ==> in_one_place(wm.switched(id).workspaces),
{
    let idx = index_of_id(wm.workspaces, id) as usize;
    let s = wm.with_workspace(id);
    lemma_index_within(wm, id);
    lemma_with_id_keeps(wm.workspaces, id);
    let after = wm.switched(id);
    if idx != s.active_idx() {
        let quiet = s.silenced();
        lemma_first_where_found(quiet.monitors, shows(idx));
        match quiet.showing(idx) {
            Some(mi) => {
                let there = Wm { focused_monitor: mi, hovered: None, ..quiet };
                assert(seated(there));
                lemma_arrived_keeps(there, idx);
                assert(after == there.arrived(idx));
            },
            None => {
                let mi = quiet.monitor_for(idx);
                lemma_monitor_for(quiet, idx);
                lemma_shown_keeps(quiet, idx, mi);
                assert(after.workspaces == quiet.shown_on(idx, mi).workspaces);
            },
        }
        lemma_keeps_through(wm.workspaces, s.workspaces, after.workspaces);
    }
    if in_one_place(wm.workspaces) {
        lemma_kept_in_one_place(wm.workspaces, after.workspaces);
    }
}

/// Whether a window is on one workspace, and the other windows are where they
/// were.
pub open spec fn entered_one(was: Seq<Ws>, now: Seq<Ws>, id: WindowId, idx: int) -> bool {
    &&& 0 <= idx < now.len()
    &&& was.len() <= now.len()
    &&& in_one_place(now)
    &&& now[idx].holds(id)
    &&& forall|i: int| 0 <= i < now.len() && i != idx ==> !(#[trigger] now[i]).holds(id)
    &&& forall|i: int, w: WindowId|
        0 <= i < was.len() && w != id ==> (#[trigger] now[i].holds(w) <==> was[i].holds(w))
    &&& forall|i: int, w: WindowId|
        was.len() <= i < now.len() && w != id ==> !(#[trigger] now[i].holds(w))
}

proof fn lemma_entered(wm: Wm, idx: usize, id: WindowId, float: Option<Rect>, screen: Rect)
    requires
        in_one_place(wm.workspaces),
        idx < wm.workspaces.len(),
        forall|i: int| 0 <= i < wm.workspaces.len() ==> !(#[trigger] wm.workspaces[i]).holds(id),
    ensures
        entered_one(
            wm.workspaces,
            wm.entered(idx, id, float, screen).workspaces,
            id,
            idx as int,
        ),
{
    let was = wm.workspaces;
    let now = wm.entered(idx, id, float, screen).workspaces;
    let ws = was[idx as int];
    law_placed_window_is_there(ws, id, float, screen);
    assert(now == was.update(idx as int, ws.placed(id, float, screen)));
    assert(ws.placed(id, float, screen).holds(id) <==> ws.holds(id) || id == id);
    assert forall|i: int, w: WindowId| 0 <= i < was.len() && w != id implies (
    #[trigger] now[i].holds(w) <==> was[i].holds(w)) by {
        if i == idx {
            assert(ws.placed(id, float, screen).holds(w) <==> ws.holds(w) || w == id);
        }
    }
    assert forall|i: int| 0 <= i < now.len() implies tidy(#[trigger] now[i]) by {
        if i != idx {
            assert(now[i] == was[i]);
        }
    }
    assert forall|i: int| 0 <= i < now.len() && i != idx implies !(#[trigger] now[i]).holds(
        id,
    ) by {
        assert(now[i] == was[i]);
    }
    assert forall|i: int, j: int, w: WindowId| 0 <= i < j < now.len() implies !(
    #[trigger] now[i].holds(w) && #[trigger] now[j].holds(w)) by {
        if w != id {
            assert(now[i].holds(w) <==> was[i].holds(w));
            assert(now[j].holds(w) <==> was[j].holds(w));
        }
    }
}

proof fn lemma_entered_through(
    a: Seq<Ws>,
    b: Seq<Ws>,
    c: Seq<Ws>,
    d: Seq<Ws>,
    id: WindowId,
    idx: int,
)
    requires
        keeps_windows(a, b),
        entered_one(b, c, id, idx),
        keeps_windows(c, d),
        all_tidy(d),
    ensures
        entered_one(a, d, id, idx),
{
    lemma_kept_in_one_place(c, d);
    assert(d[idx].holds(id) <==> c[idx].holds(id));
    assert forall|i: int| 0 <= i < d.len() && i != idx implies !(#[trigger] d[i]).holds(id) by {
        if i < c.len() {
            assert(d[i].holds(id) <==> c[i].holds(id));
        }
    }
    assert forall|i: int, w: WindowId| 0 <= i < a.len() && w != id implies (
    #[trigger] d[i].holds(w) <==> a[i].holds(w)) by {
        assert(d[i].holds(w) <==> c[i].holds(w));
        assert(c[i].holds(w) <==> b[i].holds(w));
        assert(b[i].holds(w) <==> a[i].holds(w));
    }
    assert forall|i: int, w: WindowId| a.len() <= i < d.len() && w != id implies !(
    #[trigger] d[i].holds(w)) by {
        if i < c.len() {
            assert(d[i].holds(w) <==> c[i].holds(w));
            if i < b.len() {
                assert(c[i].holds(w) <==> b[i].holds(w));
            }
        }
    }
}

/// The workspace that a window enters: the one that rules name, the active one
/// where they name none, and none where they name something else.
pub open spec fn house_of(wm: Wm, workspace: Option<Seq<char>>) -> Option<int> {
    match workspace {
        None => Some(wm.active_idx() as int),
        Some(text) => if starts_with(text, "special:"@) {
            Some(index_of_id(wm.workspaces, WsId::Special(after_prefix(text, "special:"@))))
        } else {
            match target_named(text) {
                Some(t) => Some(index_of_id(wm.workspaces, t.id())),
                None => None,
            }
        },
    }
}

pub proof fn lemma_with_id_len(s: Seq<Ws>, id: WsId)
    ensures
        with_id(s, id).len() <= s.len() + 256,
{
    if first_where(s, is_named(id)) is None {
        if let WsId::Numbered(n) = id {
            law_growing_keeps_workspaces(s, index_of_id(s, id) + 1);
        }
    }
}

/// Nothing holds a window that nothing held before.
pub proof fn lemma_still_absent(was: Seq<Ws>, now: Seq<Ws>, id: WindowId)
    requires
        keeps_windows(was, now),
        forall|i: int| 0 <= i < was.len() ==> !(#[trigger] was[i]).holds(id),
    ensures
        forall|i: int| 0 <= i < now.len() ==> !(#[trigger] now[i]).holds(id),
{
    assert forall|i: int| 0 <= i < now.len() implies !(#[trigger] now[i]).holds(id) by {
        if i < was.len() {
            assert(now[i].holds(id) <==> was[i].holds(id));
        }
    }
}

proof fn lemma_housed(wm: Wm, id: WindowId, float: Option<Rect>, workspace: Option<Seq<char>>)
    requires
        seated(wm),
        in_one_place(wm.workspaces),
        forall|i: int| 0 <= i < wm.workspaces.len() ==> !(#[trigger] wm.workspaces[i]).holds(id),
        wm.workspaces.len() + 512 <= usize::MAX,
        house_of(wm, workspace) is Some,
    ensures
        entered_one(
            wm.workspaces,
            wm.housed(id, float, workspace).workspaces,
            id,
            house_of(wm, workspace)->0,
        ),
{
    match workspace {
        None => {
            lemma_entered(wm, wm.active_idx(), id, float, wm.focused_rect());
        },
        Some(text) => {
            let special = starts_with(text, "special:"@);
            let ws_id = if special {
                WsId::Special(after_prefix(text, "special:"@))
            } else {
                target_named(text)->0.id()
            };
            let idx = index_of_id(wm.workspaces, ws_id) as usize;
            let s = wm.with_workspace(ws_id);
            lemma_with_id_len(wm.workspaces, ws_id);
            lemma_index_within(wm, ws_id);
            lemma_with_id_keeps(wm.workspaces, ws_id);
            lemma_kept_in_one_place(wm.workspaces, s.workspaces);
            lemma_still_absent(wm.workspaces, s.workspaces, id);
            let screen = if special {
                s.focused_rect()
            } else {
                s.rect_on(s.target_monitor(idx))
            };
            lemma_entered(s, idx, id, float, screen);
            let there = s.entered(idx, id, float, screen);
            let told = there.did(seq![there.hide_of(id)]);
            let after = wm.housed(id, float, workspace);
            if special || idx == s.active_idx() {
                assert(after.workspaces == there.workspaces);
                lemma_same_content(there.workspaces, after.workspaces);
            } else {
                lemma_with_id_len(told.workspaces, ws_id);
                law_switch_moves_no_window(told, ws_id);
                assert(after == told.switched(ws_id));
            }
            lemma_entered_through(
                wm.workspaces,
                s.workspaces,
                there.workspaces,
                after.workspaces,
                id,
                idx as int,
            );
        },
    }
}

/// A new window with a size enters the workspace that rules send it to, or
/// else the active one, and no other; all other windows stay where they are.
pub proof fn law_new_window_enters_one_workspace(wm: Wm, w: NewWin)
    requires
        seated(wm),
        in_one_place(wm.workspaces),
        forall|i: int|
            0 <= i < wm.workspaces.len() ==> !(#[trigger] wm.workspaces[i]).holds(w.id),
        w.width > 0,
        w.height > 0,
        wm.workspaces.len() + 512 <= usize::MAX,
        house_of(wm, ruling_of(wm.rules, w.app_name, w.app_bundle_id, w.title).workspace) is Some,
    ensures
        entered_one(
            wm.workspaces,
            wm.admitted(w).workspaces,
            w.id,
            house_of(
                wm,
                ruling_of(wm.rules, w.app_name, w.app_bundle_id, w.title).workspace,
            )->0,
        ),
{
    let ruling = ruling_of(wm.rules, w.app_name, w.app_bundle_id, w.title);
    let floats = match ruling.floating {
        Some(f) => f,
        None => floats_by_itself(w.subrole),
    };
    let known = Wm { registry: with_window(wm.registry, w.as_known(floats)), ..wm };
    assert(seated(known));
    assert(house_of(known, ruling.workspace) == house_of(wm, ruling.workspace));
    lemma_housed(known, w.id, w.float_in(floats, ruling.geometry), ruling.workspace);
}

} // verus!
