//! Where a step to the next or previous workspace or monitor leads.
use vstd::prelude::*;
use crate::seqs::{
    first_where, greater_key, is_first_index, is_first_where, lemma_first_where, lemma_position,
    lemma_sorted_in_order, lemma_sorted_keeps,
};
use crate::wm::monitor::{
    further_right, is_display, law_displays_go_from_left_to_right, left_to_right, neighbour_display,
    Monitor, MonitorId,
};
use crate::wm::state::Wm;
use crate::wm::state_laws::{law_switch_reaches_workspace, lemma_monitor_focused, seated};
use crate::wm::switching::{neighbour_target, ordered_targets, target_key, targets_of};
use crate::wm::workspace::{is_named, WorkspaceTarget, Ws, WsId};

verus! {

broadcast use vstd::seq_lib::group_to_multiset_ensures;

// --- Workspaces ---

/// Whether a regular workspace stands before another one: a smaller number before
/// a larger one, any number before any letter, and letters by their codes.
pub open spec fn stands_before(a: WsId, b: WsId) -> bool {
    match a {
        WsId::Numbered(m) => match b {
            WsId::Numbered(n) => m < n,
            WsId::Lettered(_) => true,
            WsId::Special(_) => false,
        },
        WsId::Lettered(c) => match b {
            WsId::Lettered(d) => (c as int) < (d as int),
            _ => false,
        },
        WsId::Special(_) => false,
    }
}

/// Whether a list holds the names of all regular workspaces, each once, from the
/// first to the last.
pub open spec fn lists_in_order(order: Seq<WsId>, workspaces: Seq<Ws>) -> bool {
    &&& forall|k: int| 0 <= k < order.len() ==> !(#[trigger] order[k] is Special)
    &&& forall|k: int|
        0 <= k < order.len() ==> exists|i: int|
            0 <= i < workspaces.len() && (#[trigger] workspaces[i]).id == #[trigger] order[k]
    &&& forall|i: int|
        0 <= i < workspaces.len() && !((#[trigger] workspaces[i]).id is Special)
            ==> order.contains(workspaces[i].id)
    &&& forall|k: int, l: int|
        0 <= k < l < order.len() ==> stands_before(#[trigger] order[k], #[trigger] order[l])
}

/// Whether no two regular workspaces have the same name.
pub open spec fn names_differ(workspaces: Seq<Ws>) -> bool {
    forall|i: int, j: int|
        0 <= i < j < workspaces.len() && !((#[trigger] workspaces[i]).id is Special) ==> (
        #[trigger] workspaces[j]).id != workspaces[i].id
}

proof fn lemma_targets(s: Seq<Ws>, t: WorkspaceTarget)
    requires
        names_differ(s),
    ensures
        targets_of(s).no_duplicates(),
        targets_of(s).contains(t) <==> exists|i: int|
            0 <= i < s.len() && (#[trigger] s[i]).id == t.id(),
    decreases s.len(),
{
    if s.len() > 0 {
        let rest = s.drop_last();
        let last = s.len() - 1;
        assert forall|i: int, j: int|
            0 <= i < j < rest.len() && !((#[trigger] rest[i]).id is Special) implies (
        #[trigger] rest[j]).id != rest[i].id by {
            assert(rest[i] == s[i] && rest[j] == s[j]);
        }
        lemma_targets(rest, t);
        if let Some(x) = s.last().id.target() {
            lemma_targets(rest, x);
            assert(x.id() == s[last].id);
            if targets_of(rest).contains(x) {
                let i = choose|i: int| 0 <= i < rest.len() && (#[trigger] rest[i]).id == x.id();
                assert(s[i].id == s[last].id);
            }
            let all = targets_of(s);
            assert(all == targets_of(rest).push(x));
            assert forall|i: int, j: int| 0 <= i < all.len() && 0 <= j < all.len() && i
                != j implies all[i] != all[j] by {
                if i == all.len() - 1 {
                    assert(targets_of(rest).contains(all[j]));
                }
                if j == all.len() - 1 {
                    assert(targets_of(rest).contains(all[i]));
                }
            }
            if targets_of(rest).contains(t) {
                let k = choose|k: int| 0 <= k < targets_of(rest).len() && targets_of(rest)[k] == t;
                assert(all[k] == t);
            }
            if x == t {
                assert(all[all.len() - 1] == t);
            }
            assert(all.contains(t) <==> targets_of(rest).contains(t) || x == t);
            assert(x == t <==> s[last].id == t.id());
        }
        assert forall|i: int| 0 <= i < rest.len() implies #[trigger] s[i] == rest[i] by {}
        if exists|i: int| 0 <= i < s.len() && (#[trigger] s[i]).id == t.id() {
            let i = choose|i: int| 0 <= i < s.len() && (#[trigger] s[i]).id == t.id();
            if i < last {
                assert(rest[i].id == t.id());
            }
        }
        if exists|i: int| 0 <= i < rest.len() && (#[trigger] rest[i]).id == t.id() {
            let i = choose|i: int| 0 <= i < rest.len() && (#[trigger] rest[i]).id == t.id();
            assert(s[i].id == t.id());
        }
    }
}

/// Two lists with the same numbers, both growing, are the same.
proof fn lemma_growing_lists(a: Seq<int>, b: Seq<int>)
    requires
        forall|i: int, j: int| 0 <= i < j < a.len() ==> #[trigger] a[i] < #[trigger] a[j],
        forall|i: int, j: int| 0 <= i < j < b.len() ==> #[trigger] b[i] < #[trigger] b[j],
        forall|x: int| #[trigger] a.contains(x) <==> b.contains(x),
    ensures
        a == b,
    decreases a.len(),
{
    if a.len() == 0 {
        if b.len() > 0 {
            assert(b.contains(b[0]));
            assert(a.contains(b[0]));
        }
        assert(a =~= b);
    } else {
        assert(a.contains(a[0]));
        assert(b.contains(a[0]));
        let la = a.len() - 1;
        let lb = b.len() - 1;
        assert(a.contains(a[la]) && b.contains(b[lb]));
        assert(b.contains(a[la]) && a.contains(b[lb]));
        let j = choose|j: int| 0 <= j < b.len() && b[j] == a[la];
        let i = choose|i: int| 0 <= i < a.len() && a[i] == b[lb];
        assert(a[la] == b[lb]);
        let ra = a.drop_last();
        let rb = b.drop_last();
        assert forall|x: int| #[trigger] ra.contains(x) <==> rb.contains(x) by {
            if ra.contains(x) {
                let k = choose|k: int| 0 <= k < ra.len() && ra[k] == x;
                assert(a[k] == x && a[k] < a[la]);
                assert(a.contains(x));
                let m = choose|m: int| 0 <= m < b.len() && b[m] == x;
                assert(rb[m] == x);
            }
            if rb.contains(x) {
                let k = choose|k: int| 0 <= k < rb.len() && rb[k] == x;
                assert(b[k] == x && b[k] < b[lb]);
                assert(b.contains(x));
                assert(a.contains(x));
                let m = choose|m: int| 0 <= m < a.len() && a[m] == x;
                assert(ra[m] == x);
            }
        }
        lemma_growing_lists(ra, rb);
        assert(a =~= ra.push(a[la]));
        assert(b =~= rb.push(b[lb]));
    }
}

spec fn number_of(id: WsId) -> int {
    match id {
        WsId::Numbered(n) => n as int,
        WsId::Lettered(c) => 1000 + c as int,
        WsId::Special(_) => -1,
    }
}

/// The list through which steps go is the list of all regular workspaces from the
/// first to the last.
proof fn lemma_ordered(order: Seq<WsId>, workspaces: Seq<Ws>)
    requires
        names_differ(workspaces),
        lists_in_order(order, workspaces),
    ensures
        ordered_targets(workspaces).len() == order.len(),
        ordered_targets(workspaces).no_duplicates(),
        forall|k: int|
            0 <= k < order.len() ==> (#[trigger] ordered_targets(workspaces)[k]).id() == order[k],
{
    let gt = greater_key(target_key());
    let raw = targets_of(workspaces);
    let list = ordered_targets(workspaces);
    lemma_sorted_keeps(raw, gt);
    lemma_sorted_in_order(raw, gt);
    assert(list.to_multiset() == raw.to_multiset());
    if workspaces.len() > 0 {
        lemma_targets(workspaces, WorkspaceTarget::Numbered(0));
    } else {
        lemma_targets(workspaces, WorkspaceTarget::Numbered(0));
    }
    assert(list.no_duplicates()) by {
        raw.lemma_multiset_has_no_duplicates();
        list.lemma_multiset_has_no_duplicates_conv();
    }
    let a = Seq::new(list.len(), |i: int| number_of(list[i].id()));
    let b = Seq::new(order.len(), |i: int| number_of(order[i]));
    assert forall|i: int, j: int| 0 <= i < j < a.len() implies #[trigger] a[i]
        < #[trigger] a[j] by {
        assert(!gt(list[i], list[j]));
        assert(list[i] != list[j]);
    }
    assert forall|i: int, j: int| 0 <= i < j < b.len() implies #[trigger] b[i]
        < #[trigger] b[j] by {
        assert(stands_before(order[i], order[j]));
    }
    assert forall|x: int| #[trigger] a.contains(x) <==> b.contains(x) by {
        if a.contains(x) {
            let k = choose|k: int| 0 <= k < a.len() && a[k] == x;
            let t = list[k];
            lemma_targets(workspaces, t);
            assert(list.contains(t));
            assert(raw.to_multiset().count(t) > 0);
            assert(raw.contains(t));
            let i = choose|i: int|
                0 <= i < workspaces.len() && (#[trigger] workspaces[i]).id == t.id();
            assert(order.contains(workspaces[i].id));
            let l = choose|l: int| 0 <= l < order.len() && order[l] == workspaces[i].id;
            assert(b[l] == x);
        }
        if b.contains(x) {
            let k = choose|k: int| 0 <= k < b.len() && b[k] == x;
            assert(!(order[k] is Special));
            let i = choose|i: int|
                0 <= i < workspaces.len() && (#[trigger] workspaces[i]).id == order[k];
            let t = order[k].target()->0;
            lemma_targets(workspaces, t);
            assert(workspaces[i].id == t.id());
            assert(raw.contains(t));
            assert(raw.to_multiset().count(t) > 0);
            assert(list.contains(t));
            let l = choose|l: int| 0 <= l < list.len() && list[l] == t;
            assert(a[l] == x);
        }
    }
    lemma_growing_lists(a, b);
    assert(a.len() == list.len() && b.len() == order.len());
    assert forall|k: int| 0 <= k < order.len() implies (#[trigger] list[k]).id() == order[k] by {
        assert(a[k] == b[k]);
        assert(!(order[k] is Special));
    }
}

/// The regular workspaces stand in a ring by number and then by letter. A step to
/// the next workspace makes the one behind the active one active, and the first
/// behind the last; a step to the previous one makes the one before it active, and
/// the last before the first.
pub proof fn law_workspace_step_goes_round(wm: Wm, forward: bool, order: Seq<WsId>, i: int)
    requires
        seated(wm),
        names_differ(wm.workspaces),
        lists_in_order(order, wm.workspaces),
        0 <= i < order.len(),
        wm.active().id == order[i],
    ensures
        ({
            let n = order.len() as int;
            wm.stepped(forward).active().id == if forward {
                order[(i + 1) % n]
            } else {
                order[(i + n - 1) % n]
            }
        }),
{
    let n = order.len() as int;
    let list = ordered_targets(wm.workspaces);
    lemma_ordered(order, wm.workspaces);
    assert(!(order[i] is Special));
    let current = wm.active().id.target()->0;
    assert(list[i].id() == order[i]);
    assert(list[i] == current);
    assert(is_first_index(list, current, i));
    lemma_position(list, current, i);
    let k = if forward {
        (i + 1) % n
    } else {
        (i + n - 1) % n
    };
    lemma_ring(n, i);
    assert(neighbour_target(list, current, forward) == Some(list[k]));
    let id = list[k].id();
    assert(id == order[k]);
    let j = choose|j: int| 0 <= j < wm.workspaces.len() && (#[trigger] wm.workspaces[j]).id == order[k];
    if first_where(wm.workspaces, is_named(id)) is None {
        crate::seqs::lemma_first_where_found(wm.workspaces, is_named(id));
        assert(!is_named(id)(wm.workspaces[j]));
    }
    law_switch_reaches_workspace(wm, id);
}

/// From a special workspace no step leads anywhere.
pub proof fn law_special_workspace_has_no_neighbours(wm: Wm, forward: bool)
    requires
        wm.active().id is Special,
    ensures
        wm.stepped(forward) == wm,
{
}

// --- Monitors ---

/// The monitors stand in a ring from the first to the last. A step to the next one
/// gives the focus to the one behind the focused one, and a step to the previous
/// one to the one before it; what each of them shows stays.
pub proof fn law_monitor_step_goes_round(wm: Wm, forward: bool)
    requires
        seated(wm),
    ensures
        ({
            let n = wm.monitors.len() as int;
            let i = wm.focused_monitor as int;
            &&& wm.monitor_stepped(forward).focused_monitor == if forward {
                (i + 1) % n
            } else {
                (i + n - 1) % n
            }
            &&& wm.monitor_stepped(forward).monitors == wm.monitors
        }),
{
    let n = wm.monitors.len() as int;
    let i = wm.focused_monitor as int;
    let k = if forward {
        (i + 1) % n
    } else {
        (i + n - 1) % n
    };
    lemma_ring(n, i);
    if n > 1 {
        lemma_monitor_focused(wm, wm.monitor_beside(forward));
    }
}

/// From left to right the displays stand in a ring. The display next to one is the one behind it and
/// the previous one the one before it; no display on its right is further left than the next one.
pub proof fn law_next_display_is_to_the_right(monitors: Seq<Monitor>, from: MonitorId, i: int)
    requires
        ({
            let list = left_to_right(monitors);
            &&& 0 <= i < list.len()
            &&& list[i].id == from
            &&& forall|j: int| 0 <= j < i ==> (#[trigger] list[j]).id != from
        }),
    ensures
        ({
            let list = left_to_right(monitors);
            let n = list.len() as int;
            &&& n == monitors.len()
            &&& neighbour_display(monitors, from, true) == Some(list[(i + 1) % n].id)
            &&& neighbour_display(monitors, from, false) == Some(list[(i + n - 1) % n].id)
            &&& forall|j: int, k: int|
                0 <= j < k < n ==> (#[trigger] list[j]).usable_frame.x <= (
                #[trigger] list[k]).usable_frame.x
        }),
{
    let list = left_to_right(monitors);
    let n = list.len() as int;
    let p = is_display(from);
    assert(is_first_where(list, p, i));
    lemma_first_where(list, p, i);
    law_displays_go_from_left_to_right(monitors);
    lemma_sorted_keeps(monitors, further_right());
    lemma_ring(n, i);
}

/// The places next to one in a ring.
pub proof fn lemma_ring(n: int, i: int)
    requires
        0 <= i < n,
    ensures
        (i + 1) % n == if i + 1 < n {
            i + 1
        } else {
            0
        },
        (i + n - 1) % n == if i > 0 {
            i - 1
        } else {
            n - 1
        },
{
    if i + 1 == n {
        assert(n % n == 0) by (nonlinear_arith)
            requires
                n > 0,
        ;
    } else {
        assert((i + 1) % n == i + 1) by (nonlinear_arith)
            requires
                0 <= i + 1 < n,
        ;
    }
    if i > 0 {
        assert((i - 1 + n) % n == i - 1) by (nonlinear_arith)
            requires
                0 <= i - 1 < n,
        ;
    } else {
        assert((n - 1) % n == n - 1) by (nonlinear_arith)
            requires
                n > 0,
        ;
    }
}

} // verus!
