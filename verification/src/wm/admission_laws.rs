//! How new windows are taken in: where they float, and on which workspace.
use vstd::prelude::*;
use crate::config::rules::Rule;
use crate::seqs::{
    first_where, is_last_where, last_where, lemma_first_where_found, lemma_last_where,
};
use crate::text::{after_prefix, starts_with};
use crate::wm::geometry::Rect;
use crate::wm::lifecycle::{ruling_of, sets_floating, sets_geometry};
use crate::wm::monitor::shows;
use crate::wm::state::{NewWin, Wm};
use crate::wm::state_laws::{lemma_index_within, lemma_monitor_for, seated};
use crate::wm::window::{with_window, WindowId};
use crate::wm::window_event::floats_by_itself;
use crate::wm::window_laws::{house_of, lemma_still_absent, lemma_with_id_keeps, lemma_with_id_len};
use crate::wm::workspace::{
    float_ids, holds_window, index_of_id, is_float_of, is_named, law_workspace_by_name,
    target_named, FloatingWindow, Ws, WsId,
};
use crate::wm::workspace_laws::in_one_place;

verus! {

// --- Floating windows through a switch ---

/// Whether each of some workspaces has the floating windows that it had, in the
/// rectangles that they had.
pub open spec fn keeps_floats(was: Seq<Ws>, now: Seq<Ws>) -> bool {
    &&& was.len() <= now.len()
    &&& forall|i: int, f: FloatingWindow|
        0 <= i < was.len() ==> (#[trigger] now[i].floating.contains(f)
            <==> was[i].floating.contains(f))
}

proof fn lemma_raised_floats(ws: Ws, w: WindowId, f: FloatingWindow)
    ensures
        ws.focus_given(w).floating.contains(f) <==> ws.floating.contains(f),
{
    let after = ws.focus_given(w).floating;
    let before = ws.floating;
    lemma_first_where_found(before, is_float_of(w));
    if let Some(i) = first_where(before, is_float_of(w)) {
        assert(after == before.remove(i).push(before[i]));
        if before.contains(f) {
            let k = choose|k: int| 0 <= k < before.len() && before[k] == f;
            if k < i {
                assert(after[k] == f);
            } else if k == i {
                assert(after[after.len() - 1] == f);
            } else {
                assert(after[k - 1] == f);
            }
        }
        if after.contains(f) {
            let k = choose|k: int| 0 <= k < after.len() && after[k] == f;
            if k < i {
                assert(before[k] == f);
            } else if k < after.len() - 1 {
                assert(before[k + 1] == f);
            } else {
                assert(before[i] == f);
            }
        }
    }
}

/// Giving a window the focus moves no floating window.
pub proof fn law_focus_keeps_floats(wm: Wm, id: WindowId, activate: bool)
    requires
        seated(wm),
    ensures
        keeps_floats(wm.workspaces, wm.focused_on(id, activate).workspaces),
{
    reveal(Wm::focused_on);
    lemma_first_where_found(wm.workspaces, holds_window(id));
    let home = wm.focus_home(id);
    let ws = wm.workspaces[home as int];
    let after = wm.focused_on(id, activate).workspaces;
    assert(after == wm.workspaces.update(home as int, ws.focus_given(id)));
    assert forall|i: int, f: FloatingWindow| 0 <= i < wm.workspaces.len() implies (
    #[trigger] after[i].floating.contains(f) <==> wm.workspaces[i].floating.contains(f)) by {
        if i == home {
            lemma_raised_floats(ws, id, f);
        }
    }
}

/// A switch to another workspace moves no floating window.
pub proof fn law_switch_keeps_floats(wm: Wm, id: WsId)
    requires
        seated(wm),
        wm.with_workspace(id).workspaces.len() <= usize::MAX,
    ensures
        keeps_floats(wm.workspaces, wm.switched(id).workspaces),
{
    let idx = index_of_id(wm.workspaces, id) as usize;
    let s = wm.with_workspace(id);
    lemma_index_within(wm, id);
    law_workspace_by_name(wm.workspaces, id);
    let after = wm.switched(id).workspaces;
    assert(keeps_floats(wm.workspaces, s.workspaces));
    if idx != s.active_idx() {
        let quiet = s.silenced();
        lemma_first_where_found(quiet.monitors, shows(idx));
        match quiet.showing(idx) {
            Some(mi) => {
                let there = Wm { focused_monitor: mi, hovered: None, ..quiet };
                assert(seated(there));
                if let Some(w) = there.workspaces[idx as int].focused {
                    law_focus_keeps_floats(there, w, true);
                }
                assert(wm.switched(id) == there.arrived(idx));
                assert(keeps_floats(there.workspaces, after));
                assert forall|i: int, f: FloatingWindow| 0 <= i < wm.workspaces.len() implies (
                #[trigger] after[i].floating.contains(f)
                    <==> wm.workspaces[i].floating.contains(f)) by {
                    assert(there.workspaces[i] == wm.workspaces[i]);
                }
            },
            None => {
                let mi = quiet.monitor_for(idx);
                lemma_monitor_for(quiet, idx);
                assert(after == quiet.shown_on(idx, mi).workspaces);
                assert forall|i: int, f: FloatingWindow| 0 <= i < wm.workspaces.len() implies (
                #[trigger] after[i].floating.contains(f)
                    <==> wm.workspaces[i].floating.contains(f)) by {
                    assert(s.workspaces[i] == wm.workspaces[i]);
                    assert(after[i].floating == quiet.workspaces[i].floating);
                }
            },
        }
    }
}

// --- What rules decide ---

/// Whether a window floats: the last rule for it that says so decides, and where
/// none does, dialogs, sheets and floating panels do.
pub open spec fn is_to_float(rules: Seq<Rule>, w: NewWin) -> bool {
    ||| exists|k: int|
        0 <= k < rules.len() && (#[trigger] rules[k]).floating == Some(true) && rules[k].is_for(
            w.app_name,
            w.app_bundle_id,
            w.title,
        ) && forall|j: int|
            k < j < rules.len() && (#[trigger] rules[j]).is_for(
                w.app_name,
                w.app_bundle_id,
                w.title,
            ) ==> rules[j].floating is None
    ||| {
        &&& forall|j: int|
            0 <= j < rules.len() && (#[trigger] rules[j]).is_for(
                w.app_name,
                w.app_bundle_id,
                w.title,
            ) ==> rules[j].floating is None
        &&& w.subrole == "AXDialog"@ || w.subrole == "AXSheet"@ || w.subrole
            == "AXFloatingWindow"@ || w.subrole == "AXSystemFloatingWindow"@
    }
}

/// Whether a window is new here: it has a size, no workspace holds it, and there
/// is room for more workspaces.
pub open spec fn is_new(wm: Wm, w: NewWin) -> bool {
    &&& w.width > 0
    &&& w.height > 0
    &&& forall|i: int| 0 <= i < wm.workspaces.len() ==> !(#[trigger] wm.workspaces[i]).holds(w.id)
    &&& wm.workspaces.len() + 512 <= usize::MAX
}

/// Whether a window floats on one workspace and every floating entry of it has
/// this place and size.
pub open spec fn floats_in(
    workspaces: Seq<Ws>,
    id: WindowId,
    x: int,
    y: int,
    width: int,
    height: int,
) -> bool {
    &&& exists|i: int, k: int|
        0 <= i < workspaces.len() && 0 <= k < workspaces[i].floating.len() && (
        #[trigger] workspaces[i].floating[k]).id == id
    &&& forall|i: int, k: int|
        0 <= i < workspaces.len() && 0 <= k < workspaces[i].floating.len() && (
        #[trigger] workspaces[i].floating[k]).id == id ==> {
            let g = workspaces[i].floating[k].geometry;
            g.x == x && g.y == y && g.width == width && g.height == height
        }
}

pub proof fn lemma_floats(rules: Seq<Rule>, w: NewWin)
    ensures
        is_to_float(rules, w) == match ruling_of(
            rules,
            w.app_name,
            w.app_bundle_id,
            w.title,
        ).floating {
            Some(f) => f,
            None => floats_by_itself(w.subrole),
        },
{
    let p = sets_floating(w.app_name, w.app_bundle_id, w.title);
    if exists|i: int| is_last_where(rules, p, i) {
        let i = choose|i: int| is_last_where(rules, p, i);
        lemma_last_where(rules, p, i);
        assert(p(rules[i]));
        assert forall|j: int|
            i < j < rules.len() && (#[trigger] rules[j]).is_for(
                w.app_name,
                w.app_bundle_id,
                w.title,
            ) implies rules[j].floating is None by {
            assert(!p(rules[j]));
        }
        if is_to_float(rules, w) && rules[i].floating != Some(true) {
            let k = choose|k: int|
                0 <= k < rules.len() && (#[trigger] rules[k]).floating == Some(true)
                    && rules[k].is_for(w.app_name, w.app_bundle_id, w.title) && forall|j: int|
                    k < j < rules.len() && (#[trigger] rules[j]).is_for(
                        w.app_name,
                        w.app_bundle_id,
                        w.title,
                    ) ==> rules[j].floating is None;
            assert(k <= i || !p(rules[k]));
            assert(rules[i].floating is None || i <= k);
        }
    } else {
        lemma_none_last(rules, p);
        assert(last_where(rules, p) is None);
        assert forall|j: int|
            0 <= j < rules.len() && (#[trigger] rules[j]).is_for(
                w.app_name,
                w.app_bundle_id,
                w.title,
            ) implies rules[j].floating is None by {
            assert(!p(rules[j]));
        }
    }
}

/// Where none is the last of a kind, none is of that kind.
proof fn lemma_none_last(rules: Seq<Rule>, p: spec_fn(Rule) -> bool)
    requires
        !exists|i: int| is_last_where(rules, p, i),
    ensures
        forall|j: int| 0 <= j < rules.len() ==> !p(#[trigger] rules[j]),
{
    assert forall|j: int| 0 <= j < rules.len() implies !p(#[trigger] rules[j]) by {
        if p(rules[j]) {
            lemma_last_exists(rules, p, j, rules.len() as int);
        }
    }
}

proof fn lemma_last_exists(rules: Seq<Rule>, p: spec_fn(Rule) -> bool, j: int, n: int)
    requires
        0 <= j < n <= rules.len(),
        p(rules[j]),
        forall|k: int| n <= k < rules.len() ==> !p(#[trigger] rules[k]),
    ensures
        exists|i: int| is_last_where(rules, p, i),
    decreases n - j,
{
    if p(rules[n - 1]) {
        assert(is_last_where(rules, p, n - 1));
    } else {
        lemma_last_exists(rules, p, j, n - 1);
    }
}

/// The new window floats once, in the rectangle given, if any.
proof fn lemma_housed_float(
    wm: Wm,
    id: WindowId,
    geometry: Rect,
    workspace: Option<Seq<char>>,
)
    requires
        seated(wm),
        in_one_place(wm.workspaces),
        forall|i: int| 0 <= i < wm.workspaces.len() ==> !(#[trigger] wm.workspaces[i]).holds(id),
        wm.workspaces.len() + 512 <= usize::MAX,
        house_of(wm, workspace) is Some,
    ensures
        floats_in(
            wm.housed(id, Some(geometry), workspace).workspaces,
            id,
            geometry.x as int,
            geometry.y as int,
            geometry.width as int,
            geometry.height as int,
        ),
{
    match workspace {
        None => {
            lemma_entered_float(wm, wm.active_idx(), id, geometry, wm.focused_rect());
        },
        Some(text) => {
            let special = starts_with(text, "special:"@);
            let ws_id = if special {
                WsId::Special(after_prefix(text, "special:"@))
            } else {
                target_named(text)->0.id()
            };
            let idx = index_of_id(wm.workspaces, ws_id) as usize;
            let s = wm.with_workspace(ws_id);
            lemma_with_id_len(wm.workspaces, ws_id);
            lemma_index_within(wm, ws_id);
            lemma_with_id_keeps(wm.workspaces, ws_id);
            lemma_still_absent(wm.workspaces, s.workspaces, id);
            let screen = if special {
                s.focused_rect()
            } else {
                s.rect_on(s.target_monitor(idx))
            };
            lemma_entered_float(s, idx, id, geometry, screen);
            let there = s.entered(idx, id, Some(geometry), screen);
            let told = there.did(seq![there.hide_of(id)]);
            let after = wm.housed(id, Some(geometry), workspace);
            if special || idx == s.active_idx() {
                assert(after.workspaces == there.workspaces);
            } else {
                lemma_with_id_len(told.workspaces, ws_id);
                assert(seated(told));
                law_switch_keeps_floats(told, ws_id);
                assert(after == told.switched(ws_id));
                lemma_added_empty(told, ws_id);
                lemma_floats_kept(
                    told.workspaces,
                    after.workspaces,
                    id,
                    geometry,
                );
            }
        },
    }
}

/// Workspaces that a switch adds hold no floating window.
proof fn lemma_added_empty(wm: Wm, id: WsId)
    requires
        seated(wm),
        wm.with_workspace(id).workspaces.len() <= usize::MAX,
    ensures
        forall|i: int|
            wm.workspaces.len() <= i < wm.switched(id).workspaces.len() ==> (
            #[trigger] wm.switched(id).workspaces[i]).floating.len() == 0,
{
    let idx = index_of_id(wm.workspaces, id) as usize;
    let s = wm.with_workspace(id);
    let after = wm.switched(id).workspaces;
    lemma_index_within(wm, id);
    lemma_added_fresh(wm.workspaces, id);
    if idx != s.active_idx() {
        let quiet = s.silenced();
        lemma_first_where_found(quiet.monitors, shows(idx));
        match quiet.showing(idx) {
            Some(mi) => {
                let there = Wm { focused_monitor: mi, hovered: None, ..quiet };
                assert(seated(there));
                assert(wm.switched(id) == there.arrived(idx));
                if let Some(w) = there.workspaces[idx as int].focused {
                    law_focus_keeps_floats(there, w, true);
                    reveal(Wm::focused_on);
                }
                assert forall|i: int| wm.workspaces.len() <= i < after.len() implies (
                #[trigger] after[i]).floating.len() == 0 by {
                    assert(there.workspaces[i].floating.len() == 0);
                    if after[i].floating.len() > 0 {
                        let f = after[i].floating[0];
                        assert(after[i].floating.contains(f));
                        assert(there.workspaces[i].floating.contains(f));
                    }
                }
            },
            None => {
                let mi = quiet.monitor_for(idx);
                lemma_monitor_for(quiet, idx);
                assert(after == quiet.shown_on(idx, mi).workspaces);
                assert forall|i: int| wm.workspaces.len() <= i < after.len() implies (
                #[trigger] after[i]).floating.len() == 0 by {
                    assert(s.workspaces[i].floating.len() == 0);
                    assert(after[i].floating == quiet.workspaces[i].floating);
                }
            },
        }
    }
}

proof fn lemma_added_fresh(s: Seq<Ws>, id: WsId)
    ensures
        forall|i: int|
            s.len() <= i < crate::wm::workspace::with_id(s, id).len() ==> (
            #[trigger] crate::wm::workspace::with_id(s, id)[i]).floating.len() == 0,
{
    if first_where(s, is_named(id)) is None {
        if let WsId::Numbered(n) = id {
            lemma_grown_fresh(s, index_of_id(s, id) + 1);
        }
    }
}

proof fn lemma_grown_fresh(s: Seq<Ws>, count: int)
    ensures
        forall|i: int|
            s.len() <= i < crate::wm::workspace::grown(s, count).len() ==> (
            #[trigger] crate::wm::workspace::grown(s, count)[i]).floating.len() == 0,
    decreases count - s.len(),
{
    if s.len() < count {
        let t = s.push(Ws::fresh(WsId::Numbered(((s.len() + 1) % 256) as u8)));
        lemma_grown_fresh(t, count);
        crate::wm::workspace::law_growing_keeps_workspaces(t, count);
        let g = crate::wm::workspace::grown(s, count);
        assert(g[s.len() as int] == t[s.len() as int]);
    }
}

proof fn lemma_floats_kept(was: Seq<Ws>, now: Seq<Ws>, id: WindowId, geometry: Rect)
    requires
        keeps_floats(was, now),
        forall|i: int| was.len() <= i < now.len() ==> (#[trigger] now[i]).floating.len() == 0,
        floats_in(
            was,
            id,
            geometry.x as int,
            geometry.y as int,
            geometry.width as int,
            geometry.height as int,
        ),
    ensures
        floats_in(
            now,
            id,
            geometry.x as int,
            geometry.y as int,
            geometry.width as int,
            geometry.height as int,
        ),
{
    let (i, k) = choose|i: int, k: int|
        0 <= i < was.len() && 0 <= k < was[i].floating.len() && (
        #[trigger] was[i].floating[k]).id == id;
    let f = was[i].floating[k];
    assert(was[i].floating.contains(f));
    assert(now[i].floating.contains(f));
    let l = choose|l: int| 0 <= l < now[i].floating.len() && now[i].floating[l] == f;
    assert(now[i].floating[l].id == id);
    assert forall|i: int, k: int|
        0 <= i < now.len() && 0 <= k < now[i].floating.len() && (
        #[trigger] now[i].floating[k]).id == id implies now[i].floating[k].geometry.x == geometry.x
        && now[i].floating[k].geometry.y == geometry.y && now[i].floating[k].geometry.width
        == geometry.width && now[i].floating[k].geometry.height == geometry.height by {
        assert(i < was.len());
        let f = now[i].floating[k];
        assert(now[i].floating.contains(f));
        assert(was[i].floating.contains(f));
        let l = choose|l: int| 0 <= l < was[i].floating.len() && was[i].floating[l] == f;
        assert(was[i].floating[l].id == id);
    }
}

proof fn lemma_entered_float(wm: Wm, idx: usize, id: WindowId, geometry: Rect, screen: Rect)
    requires
        idx < wm.workspaces.len(),
        forall|i: int| 0 <= i < wm.workspaces.len() ==> !(#[trigger] wm.workspaces[i]).holds(id),
    ensures
        floats_in(
            wm.entered(idx, id, Some(geometry), screen).workspaces,
            id,
            geometry.x as int,
            geometry.y as int,
            geometry.width as int,
            geometry.height as int,
        ),
{
    let was = wm.workspaces;
    let now = wm.entered(idx, id, Some(geometry), screen).workspaces;
    let floating = was[idx as int].floating;
    assert(now[idx as int].floating == floating.push(FloatingWindow { id, geometry }));
    assert(now[idx as int].floating[floating.len() as int].id == id);
    assert forall|i: int, k: int|
        0 <= i < now.len() && 0 <= k < now[i].floating.len() && (
        #[trigger] now[i].floating[k]).id == id implies now[i].floating[k].geometry == geometry by {
        if i != idx || k < floating.len() {
            assert(now[i].floating[k] == was[i].floating[k]);
            assert(float_ids(was[i].floating)[k] == id);
            assert(was[i].floats(id));
            assert(was[i].holds(id));
        }
    }
}

/// A window that floats, and to which the last rule for it that gives a rectangle
/// gives `x`, `y`, `width` and `height`, floats at `x` and `y`, so wide and so high.
pub proof fn law_ruled_window_floats_in_its_rectangle(
    wm: Wm,
    w: NewWin,
    k: int,
    x: i64,
    y: i64,
    width: i64,
    height: i64,
)
    requires
        seated(wm),
        in_one_place(wm.workspaces),
        is_new(wm, w),
        house_of(wm, ruling_of(wm.rules, w.app_name, w.app_bundle_id, w.title).workspace) is Some,
        is_to_float(wm.rules, w),
        0 <= k < wm.rules.len(),
        wm.rules[k].is_for(w.app_name, w.app_bundle_id, w.title),
        wm.rules[k].geometry == Some((x, y, width, height)),
        forall|j: int|
            k < j < wm.rules.len() && (#[trigger] wm.rules[j]).is_for(
                w.app_name,
                w.app_bundle_id,
                w.title,
            ) ==> wm.rules[j].geometry is None,
    ensures
        floats_in(
            wm.admitted(w).workspaces,
            w.id,
            x as int,
            y as int,
            width as int,
            height as int,
        ),
{
    let p = sets_geometry(w.app_name, w.app_bundle_id, w.title);
    assert(is_last_where(wm.rules, p, k)) by {
        assert(p(wm.rules[k]));
    }
    lemma_last_where(wm.rules, p, k);
    lemma_floats(wm.rules, w);
    let ruling = ruling_of(wm.rules, w.app_name, w.app_bundle_id, w.title);
    let known = Wm { registry: with_window(wm.registry, w.as_known(true)), ..wm };
    assert(seated(known));
    assert(house_of(known, ruling.workspace) == house_of(wm, ruling.workspace));
    lemma_housed_float(known, w.id, Rect { x, y, width, height }, ruling.workspace);
}

/// A window that floats and to which no rule gives a rectangle floats where it is.
pub proof fn law_unruled_window_floats_where_it_is(wm: Wm, w: NewWin)
    requires
        seated(wm),
        in_one_place(wm.workspaces),
        is_new(wm, w),
        house_of(wm, ruling_of(wm.rules, w.app_name, w.app_bundle_id, w.title).workspace) is Some,
        is_to_float(wm.rules, w),
        forall|j: int|
            0 <= j < wm.rules.len() && (#[trigger] wm.rules[j]).is_for(
                w.app_name,
                w.app_bundle_id,
                w.title,
            ) ==> wm.rules[j].geometry is None,
    ensures
        floats_in(
            wm.admitted(w).workspaces,
            w.id,
            w.x as int,
            w.y as int,
            w.width as int,
            w.height as int,
        ),
{
    let p = sets_geometry(w.app_name, w.app_bundle_id, w.title);
    assert forall|i: int| !is_last_where(wm.rules, p, i) by {
        if is_last_where(wm.rules, p, i) {
            assert(p(wm.rules[i]));
        }
    }
    lemma_floats(wm.rules, w);
    let ruling = ruling_of(wm.rules, w.app_name, w.app_bundle_id, w.title);
    let known = Wm { registry: with_window(wm.registry, w.as_known(true)), ..wm };
    assert(seated(known));
    assert(house_of(known, ruling.workspace) == house_of(wm, ruling.workspace));
    lemma_housed_float(
        known,
        w.id,
        Rect { x: w.x, y: w.y, width: w.width, height: w.height },
        ruling.workspace,
    );
}

} // verus!
