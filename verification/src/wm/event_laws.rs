//! What reports of windows change.
use vstd::prelude::*;
use crate::seqs::{
    differs_from, first_where, is_first_where, lemma_first_where, lemma_first_where_found, without,
};
use crate::wm::focus_laws::lemma_home;
use crate::wm::state::{NewWin, Wm};
use crate::wm::window::{has_id, window_of, Win, WindowId};
use crate::wm::window_event::{floats_by_itself, kind_of_notification, Event, WindowEventKind};
use crate::wm::workspace::{float_ids, is_float_of, Ws};
use crate::wm::workspace_laws::{in_one_place, tidy};

verus! {

// --- Which window gets the focus of one that is gone ---

/// When the focused window is closed and was the last one in the history, the one before
/// it in the history gets the focus, or none if there is none. When another window is
/// closed, the focus stays.
pub proof fn law_close_gives_focus_back(ws: Ws, w: WindowId)
    requires
        ws.focus_history.len() > 0,
        ws.focus_history.last() == w,
    ensures
        ws.focused == Some(w) ==> ws.closed(w).focused == if ws.focus_history.len() > 1 {
            Some(ws.focus_history[ws.focus_history.len() - 2])
        } else {
            None
        },
        ws.focused != Some(w) ==> ws.closed(w).focused == ws.focused,
{
}

/// The last other entry of a history stays its last one without a window.
proof fn lemma_last_other(history: Seq<WindowId>, w: WindowId, k: int)
    requires
        0 <= k < history.len(),
        history[k] != w,
        forall|j: int| k < j < history.len() ==> #[trigger] history[j] == w,
    ensures
        without(history, w).len() > 0,
        without(history, w).last() == history[k],
    decreases history.len(),
{
    let p = differs_from(w);
    let rest = history.drop_last();
    reveal(Seq::filter);
    if k == history.len() - 1 {
        assert(without(history, w) == without(rest, w).push(history[k]));
    } else {
        assert(history.last() == w);
        assert(without(history, w) == without(rest, w));
        assert forall|j: int| k < j < rest.len() implies #[trigger] rest[j] == w by {
            assert(rest[j] == history[j]);
        }
        lemma_last_other(rest, w, k);
    }
}

/// When the focused window leaves a workspace, the other window that had the focus last
/// gets it; when another window leaves, the focus stays.
pub proof fn law_leaving_gives_focus_back(ws: Ws, w: WindowId, k: int)
    ensures
        ws.focused != Some(w) ==> ws.taken(w).focused == ws.focused,
        ws.focused == Some(w) && 0 <= k < ws.focus_history.len() && ws.focus_history[k] != w && (
        forall|j: int| k < j < ws.focus_history.len() ==> #[trigger] ws.focus_history[j] == w)
            ==> ws.taken(w).focused == Some(ws.focus_history[k]),
{
    if 0 <= k < ws.focus_history.len() && ws.focus_history[k] != w && (forall|j: int|
        k < j < ws.focus_history.len() ==> #[trigger] ws.focus_history[j] == w) {
        lemma_last_other(ws.focus_history, w, k);
    }
}

// --- Places and sizes that are reported ---

/// Whether a window is the first of its number among the known ones.
pub open spec fn is_known_at(registry: Seq<Win>, id: WindowId, k: int) -> bool {
    &&& 0 <= k < registry.len()
    &&& registry[k].id == id
    &&& forall|j: int| 0 <= j < k ==> (#[trigger] registry[j]).id != id
}

/// Whether all known windows but one are as they were.
pub open spec fn others_known_alike(was: Seq<Win>, now: Seq<Win>, k: int) -> bool {
    &&& now.len() == was.len()
    &&& forall|j: int| 0 <= j < was.len() && j != k ==> #[trigger] now[j] == was[j]
}

proof fn lemma_known_at(registry: Seq<Win>, id: WindowId, k: int)
    requires
        is_known_at(registry, id, k),
    ensures
        first_where(registry, has_id(id)) == Some(k),
        window_of(registry, id) == Some(registry[k]),
{
    assert(is_first_where(registry, has_id(id), k));
    lemma_first_where(registry, has_id(id), k);
}

/// A known window that is reported at another place is known there, and nothing else that
/// is known changes. A report of a hidden window changes nothing.
pub proof fn law_moved_window_is_known_there(
    wm: Wm,
    e: Event,
    id: WindowId,
    x: i64,
    y: i64,
    k: int,
)
    requires
        e.kind is Moved,
        e.id == Some(id),
        e.position == Some((x, y)),
        is_known_at(wm.registry, id, k),
    ensures
        wm.hides(id) ==> wm.handled(e) == wm,
        !wm.hides(id) ==> {
            let now = wm.handled(e).registry;
            let w = wm.registry[k];
            &&& others_known_alike(wm.registry, now, k)
            &&& now[k].x == x
            &&& now[k].y == y
            &&& now[k].id == id
            &&& now[k].width == w.width
            &&& now[k].height == w.height
            &&& now[k].title == w.title
            &&& now[k].app_pid == w.app_pid
            &&& now[k].floating == w.floating
            &&& now[k].minimized == w.minimized
        },
{
    lemma_known_at(wm.registry, id, k);
}

/// A known window that is reported with another place and size is known with them.
pub proof fn law_resized_window_is_known_so(
    wm: Wm,
    e: Event,
    id: WindowId,
    x: i64,
    y: i64,
    width: i64,
    height: i64,
    k: int,
)
    requires
        e.kind is Resized,
        e.id == Some(id),
        e.position == Some((x, y)),
        e.size == Some((width, height)),
        is_known_at(wm.registry, id, k),
    ensures
        wm.hides(id) ==> wm.handled(e) == wm,
        !wm.hides(id) ==> {
            let now = wm.handled(e).registry;
            let w = wm.registry[k];
            &&& others_known_alike(wm.registry, now, k)
            &&& now[k].x == x
            &&& now[k].y == y
            &&& now[k].width == width
            &&& now[k].height == height
            &&& now[k].id == id
            &&& now[k].title == w.title
            &&& now[k].app_pid == w.app_pid
            &&& now[k].floating == w.floating
            &&& now[k].minimized == w.minimized
        },
{
    lemma_known_at(wm.registry, id, k);
}

/// A known window that is reported with another title, as minimized or as shown again is
/// known so, and nothing else changes.
pub proof fn law_changed_window_is_known_so(wm: Wm, e: Event, id: WindowId, k: int)
    requires
        e.id == Some(id),
        is_known_at(wm.registry, id, k),
    ensures
        ({
            let after = wm.handled(e);
            let now = after.registry;
            let w = wm.registry[k];
            &&& e.kind is TitleChanged && e.title is Some ==> others_known_alike(
                wm.registry,
                now,
                k,
            ) && now[k].title == e.title->0 && now[k].minimized == w.minimized && now[k].x == w.x
                && after.workspaces == wm.workspaces
            &&& e.kind is Minimized ==> others_known_alike(wm.registry, now, k) && now[k].minimized
                && now[k].title == w.title && now[k].x == w.x && after.workspaces == wm.workspaces
            &&& e.kind is Unminimized ==> others_known_alike(wm.registry, now, k)
                && !now[k].minimized && now[k].title == w.title && now[k].x == w.x
                && after.workspaces == wm.workspaces
        }),
{
    lemma_known_at(wm.registry, id, k);
}

/// A floating window that is reported at another place floats there with the size that it
/// had; one that is reported with place and size floats so. Other floating windows stay.
pub proof fn law_reported_float_floats_there(
    wm: Wm,
    e: Event,
    id: WindowId,
    x: i64,
    y: i64,
    i: int,
    f: int,
)
    requires
        in_one_place(wm.workspaces),
        0 <= i < wm.workspaces.len() <= usize::MAX,
        0 <= f < wm.workspaces[i].floating.len(),
        wm.workspaces[i].floating[f].id == id,
        window_of(wm.registry, id) is Some,
        e.id == Some(id),
        e.position == Some((x, y)),
        e.kind is Moved || (e.kind is Resized && e.size is Some),
        !wm.hides(id),
    ensures
        ({
            let after = wm.handled(e);
            let was = wm.workspaces[i].floating;
            let now = after.workspaces[i].floating;
            &&& after.workspaces.len() == wm.workspaces.len()
            &&& forall|j: int|
                0 <= j < wm.workspaces.len() && j != i ==> #[trigger] after.workspaces[j]
                    == wm.workspaces[j]
            &&& now.len() == was.len()
            &&& forall|g: int| 0 <= g < was.len() && g != f ==> #[trigger] now[g] == was[g]
            &&& now[f].id == id
            &&& now[f].geometry.x == x
            &&& now[f].geometry.y == y
            &&& e.kind is Moved ==> now[f].geometry.width == was[f].geometry.width
                && now[f].geometry.height == was[f].geometry.height
            &&& e.kind is Resized ==> e.size == Some(
                (now[f].geometry.width, now[f].geometry.height),
            )
            &&& after.workspaces[i].tree == wm.workspaces[i].tree
            &&& after.workspaces[i].focused == wm.workspaces[i].focused
        }),
{
    let ws = wm.workspaces[i];
    assert(tidy(ws));
    assert(float_ids(ws.floating)[f] == id);
    assert(ws.holds(id));
    lemma_home(wm, id, i);
    let p = is_float_of(id);
    assert forall|g: int| 0 <= g < f implies !p(#[trigger] ws.floating[g]) by {
        assert(float_ids(ws.floating)[g] != float_ids(ws.floating)[f]);
    }
    assert(is_first_where(ws.floating, p, f));
    lemma_first_where(ws.floating, p, f);
}

// --- Windows that are announced ---

/// A window that is announced with a size below fifty points by fifty, that is known
/// already, or that has no title while its application has windows, is not taken in.
pub proof fn law_window_is_not_taken_in(wm: Wm, e: Event)
    requires
        e.kind is Created,
        ({
            ||| e.id is None
            ||| e.size is None
            ||| e.size matches Some((width, height)) && (width < 50_000 || height < 50_000)
            ||| exists|k: int| 0 <= k < wm.registry.len() && (#[trigger] wm.registry[k]).id
                == e.id->0
            ||| (e.title is None || e.title->0.len() == 0) && exists|k: int|
                0 <= k < wm.registry.len() && (#[trigger] wm.registry[k]).app_pid == e.pid
            ||| e.role is None
            ||| e.subrole is None
        }),
    ensures
        wm.handled(e) == wm,
{
    if e.id is Some {
        lemma_first_where_found(wm.registry, has_id(e.id->0));
        if window_of(wm.registry, e.id->0) is None {
            assert forall|k: int| 0 <= k < wm.registry.len() implies (#[trigger] wm.registry[k]).id
                != e.id->0 by {
                assert(!has_id(e.id->0)(wm.registry[k]));
            }
        }
    }
}

/// A window that is announced with a title, a place and a size, as an ordinary window that
/// is not known yet, is the one that is taken in.
pub proof fn law_announced_window_is_taken_in(
    wm: Wm,
    e: Event,
    id: WindowId,
    title: Seq<char>,
    x: i64,
    y: i64,
    width: i64,
    height: i64,
)
    requires
        e.kind is Created,
        e.id == Some(id),
        e.title == Some(title),
        title.len() > 0,
        e.position == Some((x, y)),
        e.size == Some((width, height)),
        width >= 50_000,
        height >= 50_000,
        e.role == Some("AXWindow"@),
        e.subrole == Some("AXStandardWindow"@),
        forall|k: int| 0 <= k < wm.registry.len() ==> (#[trigger] wm.registry[k]).id != id,
    ensures
        ({
            let w = wm.created_window(e);
            &&& w is Some
            &&& w->0.id == id
            &&& w->0.app_pid == e.pid
            &&& w->0.app_name == e.app_name
            &&& w->0.app_bundle_id == e.app_bundle
            &&& w->0.title == title
            &&& w->0.x == x
            &&& w->0.y == y
            &&& w->0.width == width
            &&& w->0.height == height
            &&& wm.handled(e).workspaces == wm.admitted(w->0).workspaces
            &&& wm.handled(e).registry == wm.admitted(w->0).registry
        }),
{
    lemma_first_where_found(wm.registry, has_id(id));
    if let Some(k) = first_where(wm.registry, has_id(id)) {
        assert(has_id(id)(wm.registry[k]));
    }
}

/// What becomes known of a window that is taken in: its number, its application, its title,
/// its place and its size as they were reported.
pub proof fn law_new_window_is_known(wm: Wm, w: NewWin)
    requires
        w.width > 0,
        w.height > 0,
    ensures
        ({
            let known = window_of(wm.admitted(w).registry, w.id);
            &&& known is Some
            &&& known->0.id == w.id
            &&& known->0.app_pid == w.app_pid
            &&& known->0.app_name == w.app_name
            &&& known->0.app_bundle_id == w.app_bundle_id
            &&& known->0.title == w.title
            &&& known->0.x == w.x
            &&& known->0.y == w.y
            &&& known->0.width == w.width
            &&& known->0.height == w.height
            &&& !known->0.minimized
            &&& known->0.floating == crate::wm::admission_laws::is_to_float(wm.rules, w)
        }),
{
    let floats = crate::wm::admission_laws::is_to_float(wm.rules, w);
    crate::wm::admission_laws::lemma_floats(wm.rules, w);
    let known = Wm {
        registry: crate::wm::window::with_window(wm.registry, w.as_known(floats)),
        ..wm
    };
    let ruling = crate::wm::lifecycle::ruling_of(wm.rules, w.app_name, w.app_bundle_id, w.title);
    let float = w.float_in(floats, ruling.geometry);
    lemma_housed_registry(known, w.id, float, ruling.workspace);
    let other: WindowId = if w.id == 0 {
        1
    } else {
        0
    };
    crate::wm::window::law_added_window_is_found(wm.registry, w.as_known(floats), other);
}

proof fn lemma_housed_registry(
    wm: Wm,
    id: WindowId,
    float: Option<crate::wm::geometry::Rect>,
    workspace: Option<Seq<char>>,
)
    ensures
        wm.housed(id, float, workspace).registry == wm.registry,
{
    reveal(Wm::focused_on);
}

/// Each kind of notification announces one kind of event, and no other name announces it.
pub proof fn law_notifications_announce_events(name: Seq<char>)
    ensures
        kind_of_notification(name) == Some(WindowEventKind::Created) <==> name
            == "AXWindowCreated"@,
        kind_of_notification(name) == Some(WindowEventKind::Destroyed) <==> name
            == "AXUIElementDestroyed"@,
        kind_of_notification(name) == Some(WindowEventKind::FocusChanged) <==> name
            == "AXFocusedWindowChanged"@,
        kind_of_notification(name) == Some(WindowEventKind::Moved) <==> name == "AXWindowMoved"@,
        kind_of_notification(name) == Some(WindowEventKind::Resized) <==> name
            == "AXWindowResized"@,
        kind_of_notification(name) == Some(WindowEventKind::TitleChanged) <==> name
            == "AXTitleChanged"@,
        kind_of_notification(name) == Some(WindowEventKind::Minimized) <==> name
            == "AXWindowMiniaturized"@,
        kind_of_notification(name) == Some(WindowEventKind::Unminimized) <==> name
            == "AXWindowDeminiaturized"@,
{
    reveal_strlit("AXWindowCreated");
    reveal_strlit("AXUIElementDestroyed");
    reveal_strlit("AXFocusedWindowChanged");
    reveal_strlit("AXWindowMoved");
    reveal_strlit("AXWindowResized");
    reveal_strlit("AXTitleChanged");
    reveal_strlit("AXWindowMiniaturized");
    reveal_strlit("AXWindowDeminiaturized");
    assert("AXWindowCreated"@.len() == 15 && "AXWindowResized"@.len() == 15);
    assert("AXWindowCreated"@[8] == 'C' && "AXWindowResized"@[8] == 'R');
    assert("AXUIElementDestroyed"@.len() == 20 && "AXWindowMiniaturized"@.len() == 20);
    assert("AXUIElementDestroyed"@[2] == 'U' && "AXWindowMiniaturized"@[2] == 'W');
    assert("AXFocusedWindowChanged"@.len() == 22 && "AXWindowDeminiaturized"@.len() == 22);
    assert("AXFocusedWindowChanged"@[2] == 'F' && "AXWindowDeminiaturized"@[2] == 'W');
    assert("AXWindowMoved"@.len() == 13 && "AXTitleChanged"@.len() == 14);
}

/// Dialogs, sheets and floating windows float by themselves, and no others.
pub proof fn law_dialogs_float(subrole: Seq<char>)
    ensures
        floats_by_itself(subrole) <==> subrole == "AXDialog"@ || subrole == "AXSheet"@ || subrole
            == "AXFloatingWindow"@ || subrole == "AXSystemFloatingWindow"@,
{
}

} // verus!
