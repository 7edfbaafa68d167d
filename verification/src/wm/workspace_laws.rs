//! Laws of windows on workspaces: each is in one place.
use vstd::prelude::*;
use crate::seqs::{first_where, lemma_first_where_found};
use crate::wm::geometry::Rect;
use crate::wm::state::Wm;
use crate::wm::switching::arrival_rect;
use crate::wm::tree::{lemma_removed_absent, Tree};
use crate::wm::tree_laws::{
    law_activate_keeps_windows, law_insert_adds_window, law_insert_keeps_wf, law_remove_keeps_wf,
    law_remove_takes_window,
};
use crate::wm::window::{distinct_ids, knows, law_registry_stays_distinct, window_of, WindowId};
use crate::wm::workspace::{
    float_ids, holds_window, is_float_of, is_float_of_other, FloatingWindow, Ws, WsId,
};

verus! {

/// Whether every window of a workspace is there once, tiled or floating.
pub open spec fn tidy(ws: Ws) -> bool {
    &&& ws.tree.valid()
    &&& float_ids(ws.floating).no_duplicates()
    &&& forall|w: WindowId| !(#[trigger] ws.tree.windows().contains(w) && ws.floats(w))
}

/// A new workspace is tidy and holds nothing.
pub proof fn law_fresh_is_tidy(id: WsId)
    ensures
        tidy(Ws::fresh(id)),
        forall|w: WindowId| !#[trigger] Ws::fresh(id).holds(w),
{
    assert(Ws::fresh(id).tree.windows() =~= Seq::<WindowId>::empty());
    assert(float_ids(Ws::fresh(id).floating) =~= Seq::<WindowId>::empty());
}

proof fn lemma_contains_by_count(s: Seq<WindowId>, x: WindowId)
    ensures
        s.contains(x) <==> s.to_multiset().count(x) > 0,
{
    broadcast use vstd::seq_lib::group_to_multiset_ensures;

}

/// The windows of a tree without one.
proof fn lemma_removed_windows(t: Tree, w: WindowId)
    requires
        t.valid(),
    ensures
        t.removed(w).valid(),
        forall|x: WindowId| #[trigger]
            t.removed(w).windows().contains(x) <==> t.windows().contains(x) && x != w,
{
    broadcast use vstd::multiset::group_multiset_axioms;

    law_remove_keeps_wf(t, w);
    if t.windows().contains(w) {
        law_remove_takes_window(t, w);
        assert forall|x: WindowId| #[trigger] t.removed(w).windows().contains(x)
            <==> t.windows().contains(x) && x != w by {
            lemma_contains_by_count(t.removed(w).windows(), x);
            lemma_contains_by_count(t.windows(), x);
        }
    } else {
        lemma_removed_absent(t, w);
    }
}

/// The windows of a tree with one more.
proof fn lemma_inserted_windows(t: Tree, w: WindowId, target: Option<WindowId>, rect: Rect)
    requires
        t.valid(),
        !t.windows().contains(w),
    ensures
        t.inserted(w, target, rect).valid(),
        forall|x: WindowId| #[trigger]
            t.inserted(w, target, rect).windows().contains(x) <==> t.windows().contains(x) || x
                == w,
{
    broadcast use vstd::multiset::group_multiset_axioms;

    law_insert_keeps_wf(t, w, target, rect);
    law_insert_adds_window(t, w, target, rect);
    assert forall|x: WindowId| #[trigger] t.inserted(w, target, rect).windows().contains(x)
        <==> t.windows().contains(x) || x == w by {
        lemma_contains_by_count(t.inserted(w, target, rect).windows(), x);
        lemma_contains_by_count(t.windows(), x);
    }
}

/// The floating windows without one.
proof fn lemma_floats_without(floating: Seq<FloatingWindow>, w: WindowId)
    ensures
        forall|x: WindowId| #[trigger]
            float_ids(floating.filter(is_float_of_other(w))).contains(x) <==> float_ids(
                floating,
            ).contains(x) && x != w,
        float_ids(floating).no_duplicates() ==> float_ids(
            floating.filter(is_float_of_other(w)),
        ).no_duplicates(),
    decreases floating.len(),
{
    reveal(Seq::filter);
    let p = is_float_of_other(w);
    if floating.len() > 0 {
        let rest = floating.drop_last();
        let last = floating.last();
        lemma_floats_without(rest, w);
        let before = float_ids(rest.filter(p));
        let after = float_ids(floating.filter(p));
        let ids = float_ids(floating);
        assert(ids =~= float_ids(rest).push(last.id));
        if p(last) {
            assert(after =~= before.push(last.id));
        }
        assert forall|x: WindowId| #[trigger] after.contains(x) <==> ids.contains(x) && x != w by {
            assert(before.contains(x) <==> float_ids(rest).contains(x) && x != w);
            lemma_push_contains(float_ids(rest), last.id, x);
            lemma_push_contains(before, last.id, x);
        }
        if ids.no_duplicates() {
            assert(float_ids(rest).no_duplicates()) by {
                assert forall|i: int, j: int|
                    0 <= i < float_ids(rest).len() && 0 <= j < float_ids(rest).len() && i
                        != j implies float_ids(rest)[i] != float_ids(rest)[j] by {
                    assert(ids[i] != ids[j]);
                }
            }
            assert(!float_ids(rest).contains(last.id)) by {
                if float_ids(rest).contains(last.id) {
                    let k = choose|k: int|
                        0 <= k < float_ids(rest).len() && float_ids(rest)[k] == last.id;
                    assert(ids[k] != ids[ids.len() - 1]);
                }
            }
            assert(!before.contains(last.id));
        }
    } else {
        assert(floating.filter(p) =~= floating);
        assert(float_ids(floating) =~= Seq::<WindowId>::empty());
    }
}

proof fn lemma_push_contains(s: Seq<WindowId>, x: WindowId, y: WindowId)
    ensures
        s.push(x).contains(y) <==> s.contains(y) || x == y,
{
    if s.contains(y) {
        let k = choose|k: int| 0 <= k < s.len() && s[k] == y;
        assert(s.push(x)[k] == y);
    }
    if x == y {
        assert(s.push(x)[s.len() as int] == y);
    }
    if s.push(x).contains(y) && x != y {
        let k = choose|k: int| 0 <= k < s.push(x).len() && s.push(x)[k] == y;
        assert(s[k] == y);
    }
}

/// A window that leaves a workspace is gone from it, and no other is.
pub proof fn law_taken_window_is_gone(ws: Ws, w: WindowId)
    requires
        tidy(ws),
    ensures
        tidy(ws.taken(w)),
        forall|x: WindowId| #[trigger] ws.taken(w).holds(x) <==> ws.holds(x) && x != w,
{
    let after = ws.taken(w);
    lemma_floats_without(ws.floating, w);
    lemma_removed_windows(ws.tree, w);
    if ws.floats(w) {
        assert(!ws.tree.windows().contains(w));
    }
    assert forall|x: WindowId| !(#[trigger] after.tree.windows().contains(x) && after.floats(x)) by {
        assert(!(ws.tree.windows().contains(x) && ws.floats(x)));
        assert(float_ids(ws.floating.filter(is_float_of_other(w))).contains(x)
            <==> float_ids(ws.floating).contains(x) && x != w);
    }
    assert forall|x: WindowId| #[trigger] after.holds(x) <==> ws.holds(x) && x != w by {
        assert(ws.tree.removed(w).windows().contains(x) <==> ws.tree.windows().contains(x) && x
            != w);
        assert(float_ids(ws.floating.filter(is_float_of_other(w))).contains(x)
            <==> float_ids(ws.floating).contains(x) && x != w);
    }
}

/// A window that enters a workspace is there, and no other comes or goes.
pub proof fn law_placed_window_is_there(ws: Ws, w: WindowId, float: Option<Rect>, screen: Rect)
    requires
        tidy(ws),
        !ws.holds(w),
    ensures
        tidy(ws.placed(w, float, screen)),
        ws.placed(w, float, screen).floats(w) == (float is Some),
        ws.placed(w, float, screen).focused == Some(w),
        forall|x: WindowId| #[trigger]
            ws.placed(w, float, screen).holds(x) <==> ws.holds(x) || x == w,
{
    let after = ws.placed(w, float, screen);
    lemma_inserted_windows(ws.tree, w, ws.focused, screen);
    match float {
        Some(geometry) => {
            let ids = float_ids(ws.floating);
            assert(float_ids(after.floating) =~= ids.push(w));
            assert forall|x: WindowId| #[trigger] after.holds(x) <==> ws.holds(x) || x == w by {
                lemma_push_contains(ids, w, x);
            }
            lemma_push_contains(ids, w, w);
            assert forall|x: WindowId| !(#[trigger] after.tree.windows().contains(x)
                && after.floats(x)) by {
                lemma_push_contains(ids, w, x);
                assert(!(ws.tree.windows().contains(x) && ws.floats(x)));
            }
        },
        None => {
            assert forall|x: WindowId| !(#[trigger] after.tree.windows().contains(x)
                && after.floats(x)) by {
                assert(!(ws.tree.windows().contains(x) && ws.floats(x)));
            }
        },
    }
}

/// A window that is closed is gone from its workspace, and no other is.
pub proof fn law_closed_window_is_gone(ws: Ws, w: WindowId)
    requires
        tidy(ws),
    ensures
        tidy(ws.closed(w)),
        forall|x: WindowId| #[trigger] ws.closed(w).holds(x) <==> ws.holds(x) && x != w,
{
    let after = ws.closed(w);
    lemma_floats_without(ws.floating, w);
    lemma_removed_windows(ws.tree, w);
    assert forall|x: WindowId| !(#[trigger] after.tree.windows().contains(x) && after.floats(x)) by {
        assert(!(ws.tree.windows().contains(x) && ws.floats(x)));
        assert(float_ids(ws.floating.filter(is_float_of_other(w))).contains(x)
            <==> float_ids(ws.floating).contains(x) && x != w);
    }
    assert forall|x: WindowId| #[trigger] after.holds(x) <==> ws.holds(x) && x != w by {
        assert(ws.tree.removed(w).windows().contains(x) <==> ws.tree.windows().contains(x) && x
            != w);
        assert(float_ids(ws.floating.filter(is_float_of_other(w))).contains(x)
            <==> float_ids(ws.floating).contains(x) && x != w);
    }
}

/// The floating windows once one is taken out by its place.
proof fn lemma_float_removed(floating: Seq<FloatingWindow>, i: int)
    requires
        0 <= i < floating.len(),
        float_ids(floating).no_duplicates(),
    ensures
        float_ids(floating.remove(i)).no_duplicates(),
        forall|x: WindowId| #[trigger]
            float_ids(floating.remove(i)).contains(x) <==> float_ids(floating).contains(x) && x
                != floating[i].id,
{
    let ids = float_ids(floating);
    let rest = float_ids(floating.remove(i));
    assert(rest =~= ids.remove(i));
    assert forall|x: WindowId| #[trigger] rest.contains(x) <==> ids.contains(x) && x != ids[i] by {
        if rest.contains(x) {
            let k = choose|k: int| 0 <= k < rest.len() && rest[k] == x;
            assert(ids[if k < i { k } else { k + 1 }] == x);
        }
        if ids.contains(x) && x != ids[i] {
            let k = choose|k: int| 0 <= k < ids.len() && ids[k] == x;
            assert(rest[if k < i { k } else { k - 1 }] == x);
        }
    }
}

/// Toggling makes a tiled window float and a floating one tiled, and keeps
/// every window on the workspace.
pub proof fn law_float_toggle_keeps_windows(ws: Ws, w: WindowId, screen: Rect)
    requires
        tidy(ws),
        ws.holds(w),
    ensures
        tidy(ws.float_toggled(w, screen)),
        ws.float_toggled(w, screen).floats(w) == !ws.floats(w),
        forall|x: WindowId| #[trigger] ws.float_toggled(w, screen).holds(x) <==> ws.holds(x),
{
    let after = ws.float_toggled(w, screen);
    let ids = float_ids(ws.floating);
    lemma_first_where_found(ws.floating, is_float_of(w));
    match first_where(ws.floating, is_float_of(w)) {
        Some(i) => {
            assert(is_float_of(w)(ws.floating[i]));
            assert(ids[i] == w);
            assert(!ws.tree.windows().contains(w));
            lemma_inserted_windows(ws.tree, w, ws.focused, screen);
            lemma_float_removed(ws.floating, i);
            assert forall|x: WindowId| !(#[trigger] after.tree.windows().contains(x)
                && after.floats(x)) by {
                assert(!(ws.tree.windows().contains(x) && ws.floats(x)));
                assert(float_ids(ws.floating.remove(i)).contains(x) <==> ids.contains(x) && x
                    != w);
            }
            assert forall|x: WindowId| #[trigger] after.holds(x) <==> ws.holds(x) by {
                assert(float_ids(ws.floating.remove(i)).contains(x) <==> ids.contains(x) && x
                    != w);
            }
        },
        None => {
            assert(!ws.floats(w)) by {
                if ids.contains(w) {
                    let k = choose|k: int| 0 <= k < ids.len() && ids[k] == w;
                    assert(is_float_of(w)(ws.floating[k]));
                }
            }
            lemma_removed_windows(ws.tree, w);
            assert(float_ids(after.floating) =~= ids.push(w));
            lemma_push_contains(ids, w, w);
            assert forall|x: WindowId| !(#[trigger] after.tree.windows().contains(x)
                && after.floats(x)) by {
                lemma_push_contains(ids, w, x);
                assert(!(ws.tree.windows().contains(x) && ws.floats(x)));
            }
            assert forall|x: WindowId| #[trigger] after.holds(x) <==> ws.holds(x) by {
                lemma_push_contains(ids, w, x);
                assert(ws.tree.removed(w).windows().contains(x) <==> ws.tree.windows().contains(x)
                    && x != w);
            }
        },
    }
}

/// A tiled window that is let float stays on the workspace, floats and is
/// tiled no more; every other window stays as it is.
pub proof fn law_floated_window_stays(ws: Ws, w: WindowId, geometry: Rect)
    requires
        tidy(ws),
        ws.tree.windows().contains(w),
    ensures
        tidy(ws.floated(w, geometry)),
        ws.floated(w, geometry).floats(w),
        !ws.floated(w, geometry).tree.windows().contains(w),
        forall|x: WindowId| #[trigger]
            ws.floated(w, geometry).floats(x) <==> ws.floats(x) || x == w,
        forall|x: WindowId| #[trigger] ws.floated(w, geometry).holds(x) <==> ws.holds(x),
{
    let after = ws.floated(w, geometry);
    let ids = float_ids(ws.floating);
    assert(!(ws.tree.windows().contains(w) && ws.floats(w)));
    lemma_removed_windows(ws.tree, w);
    assert(float_ids(after.floating) =~= ids.push(w));
    lemma_push_contains(ids, w, w);
    assert forall|x: WindowId| #[trigger] after.floats(x) <==> ws.floats(x) || x == w by {
        lemma_push_contains(ids, w, x);
    }
    assert forall|x: WindowId| !(#[trigger] after.tree.windows().contains(x) && after.floats(x)) by {
        lemma_push_contains(ids, w, x);
        assert(!(ws.tree.windows().contains(x) && ws.floats(x)));
    }
    assert forall|x: WindowId| #[trigger] after.holds(x) <==> ws.holds(x) by {
        lemma_push_contains(ids, w, x);
        assert(ws.tree.removed(w).windows().contains(x) <==> ws.tree.windows().contains(x) && x
            != w);
    }
}

/// Giving a window the focus keeps every window on the workspace, tiled or
/// floating as it was.
pub proof fn law_focus_keeps_windows(ws: Ws, w: WindowId)
    requires
        tidy(ws),
    ensures
        tidy(ws.focus_given(w)),
        ws.focus_given(w).focused == Some(w),
        forall|x: WindowId| #[trigger] ws.focus_given(w).floats(x) <==> ws.floats(x),
        forall|x: WindowId| #[trigger] ws.focus_given(w).holds(x) <==> ws.holds(x),
{
    let after = ws.focus_given(w);
    let ids = float_ids(ws.floating);
    law_activate_keeps_windows(ws.tree, w);
    lemma_first_where_found(ws.floating, is_float_of(w));
    match first_where(ws.floating, is_float_of(w)) {
        Some(i) => {
            lemma_float_removed(ws.floating, i);
            let rest = float_ids(ws.floating.remove(i));
            assert(float_ids(after.floating) =~= rest.push(ids[i]));
            assert forall|x: WindowId| #[trigger] after.floats(x) <==> ws.floats(x) by {
                lemma_push_contains(rest, ids[i], x);
                assert(rest.contains(x) <==> ids.contains(x) && x != ids[i]);
                assert(ids.contains(ids[i]));
            }
            assert(!rest.contains(ids[i]));
        },
        None => {},
    }
    assert forall|x: WindowId| !(#[trigger] after.tree.windows().contains(x) && after.floats(x)) by {
        assert(after.floats(x) <==> ws.floats(x));
        assert(!(ws.tree.windows().contains(x) && ws.floats(x)));
    }
    assert forall|x: WindowId| #[trigger] after.holds(x) <==> ws.holds(x) by {
        assert(after.floats(x) <==> ws.floats(x));
    }
}

// --- All workspaces together ---

/// Whether every window is on one workspace only, and there once.
pub open spec fn in_one_place(workspaces: Seq<Ws>) -> bool {
    &&& forall|i: int| 0 <= i < workspaces.len() ==> tidy(#[trigger] workspaces[i])
    &&& forall|i: int, j: int, w: WindowId|
        0 <= i < j < workspaces.len() ==> !(#[trigger] workspaces[i].holds(w)
            && #[trigger] workspaces[j].holds(w))
}

/// A window that moves from one workspace to another one is on that one and
/// on no other, and every other window stays.
pub proof fn law_moved_window_is_in_one_place(
    wm: Wm,
    w: WindowId,
    from: usize,
    to: usize,
    screen: Rect,
)
    requires
        in_one_place(wm.workspaces),
        from < wm.workspaces.len(),
        to < wm.workspaces.len(),
        from != to,
        wm.workspaces[from as int].holds(w),
    ensures
        ({
            let after = wm.moved(w, from, to, screen).workspaces;
            &&& in_one_place(after)
            &&& after.len() == wm.workspaces.len()
            &&& after[to as int].holds(w)
            &&& forall|i: int|
                0 <= i < after.len() && i != to ==> !(#[trigger] after[i]).holds(w)
            &&& forall|i: int, x: WindowId|
                0 <= i < after.len() && x != w ==> (#[trigger] after[i].holds(x)
                    <==> wm.workspaces[i].holds(x))
        }),
{
    let before = wm.workspaces;
    let after = wm.moved(w, from, to, screen).workspaces;
    let ws = before[from as int];
    let float = if ws.floats(w) {
        Some(arrival_rect(screen))
    } else {
        None
    };
    law_taken_window_is_gone(ws, w);
    assert(!before[to as int].holds(w)) by {
        if from < to {
            assert(!(before[from as int].holds(w) && before[to as int].holds(w)));
        } else {
            assert(!(before[to as int].holds(w) && before[from as int].holds(w)));
        }
    }
    law_placed_window_is_there(before[to as int], w, float, screen);
    assert(after[from as int] == ws.taken(w));
    assert(after[to as int] == before[to as int].placed(w, float, screen));
    assert forall|i: int, x: WindowId| 0 <= i < after.len() && x != w implies (
    #[trigger] after[i].holds(x) <==> before[i].holds(x)) by {
        if i == from {
            assert(ws.taken(w).holds(x) <==> ws.holds(x) && x != w);
        } else if i == to {
            assert(before[to as int].placed(w, float, screen).holds(x)
                <==> before[to as int].holds(x) || x == w);
        }
    }
    assert forall|i: int| 0 <= i < after.len() && i != to implies !(#[trigger] after[i]).holds(
        w,
    ) by {
        if i == from {
            assert(ws.taken(w).holds(w) <==> ws.holds(w) && w != w);
        } else if from < i {
            assert(!(before[from as int].holds(w) && before[i].holds(w)));
        } else {
            assert(!(before[i].holds(w) && before[from as int].holds(w)));
        }
    }
    assert forall|i: int| 0 <= i < after.len() implies tidy(#[trigger] after[i]) by {
        if i != from && i != to {
            assert(after[i] == before[i]);
        }
    }
    assert forall|i: int, j: int, x: WindowId| 0 <= i < j < after.len() implies !(
    #[trigger] after[i].holds(x) && #[trigger] after[j].holds(x)) by {
        if x != w {
            assert(after[i].holds(x) <==> before[i].holds(x));
            assert(after[j].holds(x) <==> before[j].holds(x));
        }
    }
    assert(before[to as int].placed(w, float, screen).holds(w) <==> before[to as int].holds(w) || w
        == w);
}

/// A window that was closed is known no more and on no workspace; every other
/// window stays where it is.
pub proof fn law_closed_window_is_nowhere(wm: Wm, w: WindowId)
    requires
        in_one_place(wm.workspaces),
        wm.workspaces.len() <= usize::MAX,
        knows(wm.registry, w),
        distinct_ids(wm.registry),
    ensures
        !knows(wm.window_closed(w).registry, w),
        ({
            let after = wm.window_closed(w).workspaces;
            &&& in_one_place(after)
            &&& after.len() == wm.workspaces.len()
            &&& forall|i: int| 0 <= i < after.len() ==> !(#[trigger] after[i]).holds(w)
            &&& forall|i: int, x: WindowId|
                0 <= i < after.len() && x != w ==> (#[trigger] after[i].holds(x)
                    <==> wm.workspaces[i].holds(x))
        }),
{
    let before = wm.workspaces;
    let after = wm.window_closed(w).workspaces;
    let p = holds_window(w);
    law_registry_stays_distinct(wm.registry, window_of(wm.registry, w)->0, w);
    lemma_first_where_found(before, p);
    match first_where(before, p) {
        Some(k) => {
            assert(p(before[k]));
            law_closed_window_is_gone(before[k], w);
            assert(after =~= before.update(k, before[k].closed(w)));
            assert forall|i: int| 0 <= i < after.len() implies !(#[trigger] after[i]).holds(w) by {
                if i == k {
                    assert(before[k].closed(w).holds(w) <==> before[k].holds(w) && w != w);
                } else if k < i {
                    assert(!(before[k].holds(w) && before[i].holds(w)));
                } else {
                    assert(!(before[i].holds(w) && before[k].holds(w)));
                }
            }
            assert forall|i: int, x: WindowId| 0 <= i < after.len() && x != w implies (
            #[trigger] after[i].holds(x) <==> before[i].holds(x)) by {
                if i == k {
                    assert(before[k].closed(w).holds(x) <==> before[k].holds(x) && x != w);
                }
            }
        },
        None => {
            assert(after =~= before);
            assert forall|i: int| 0 <= i < after.len() implies !(#[trigger] after[i]).holds(w) by {
                assert(!p(before[i]));
            }
        },
    }
    assert forall|i: int| 0 <= i < after.len() implies tidy(#[trigger] after[i]) by {}
    assert forall|i: int, j: int, x: WindowId| 0 <= i < j < after.len() implies !(
    #[trigger] after[i].holds(x) && #[trigger] after[j].holds(x)) by {
        if x != w {
            assert(after[i].holds(x) <==> before[i].holds(x));
            assert(after[j].holds(x) <==> before[j].holds(x));
        } else {
            assert(!after[i].holds(w));
        }
    }
}

} // verus!
