//! What the operations on the tree keep, and what they undo.
use vstd::prelude::*;
use crate::seqs::{is_first_index, lemma_position, lemma_position_exists, position};
use crate::wm::geometry::{Direction, Rect};
use crate::wm::tree::{
    exchange, exchange_all, lemma_contains_concat, lemma_removed_absent, stack_slot, Tree,
};
use crate::wm::window::WindowId;

verus! {

broadcast use {
    vstd::multiset::group_multiset_axioms,
    vstd::seq_lib::group_to_multiset_ensures,
};

/// A well-formed tree without windows is the empty leaf.
pub proof fn law_empty_iff_no_windows(t: Tree)
    requires
        t.wf(),
    ensures
        t == Tree::empty() <==> t.windows().len() == 0,
{
}

/// Inserting adds exactly the new window, whatever the target.
pub proof fn law_insert_adds_window(t: Tree, new: WindowId, target: Option<WindowId>, rect: Rect)
    requires
        t.wf(),
    ensures
        t.inserted(new, target, rect).windows().to_multiset() == t.windows().to_multiset().insert(
            new,
        ),
        t.inserted(new, target, rect).windows().len() == t.windows().len() + 1,
        t.inserted(new, target, rect).windows().contains(new),
    decreases t,
{
    let after = t.inserted(new, target, rect);
    match t {
        Tree::Leaf { window: None } => {
            assert(after.windows() =~= Seq::<WindowId>::empty().push(new));
        },
        Tree::Leaf { window: Some(w) } => {
            reveal_with_fuel(Tree::windows, 2);
            assert(after.windows() =~= t.windows().push(new));
        },
        Tree::Internal { split, ratio, left, right } => {
            let parts = rect.parts(split, ratio);
            vstd::seq_lib::lemma_multiset_commutative(left.windows(), right.windows());
            if target is Some && left.windows().contains(target->0) {
                law_insert_adds_window(*left, new, target, parts.0);
                let l = left.inserted(new, target, parts.0);
                vstd::seq_lib::lemma_multiset_commutative(l.windows(), right.windows());
            } else {
                let below = if target is Some && right.windows().contains(target->0) {
                    target
                } else {
                    None
                };
                law_insert_adds_window(*right, new, below, parts.1);
                let r = right.inserted(new, below, parts.1);
                vstd::seq_lib::lemma_multiset_commutative(left.windows(), r.windows());
            }
            assert(after.windows().to_multiset() =~= t.windows().to_multiset().insert(new));
        },
        Tree::Stack { windows, active, previous } => {
            lemma_stack_slot(windows, active, target);
        },
    }
    assert(after.windows().to_multiset().count(new) > 0);
}

/// The first place of a window in two sequences one behind the other.
proof fn lemma_position_concat(a: Seq<WindowId>, b: Seq<WindowId>, w: WindowId)
    requires
        a.contains(w) || b.contains(w),
    ensures
        position(a + b, w) == Some(
            if a.contains(w) {
                position(a, w)->0
            } else {
                a.len() + position(b, w)->0
            },
        ),
        a.contains(w) ==> 0 <= position(a, w)->0 < a.len(),
        !a.contains(w) ==> 0 <= position(b, w)->0 < b.len(),
{
    let s = a + b;
    if a.contains(w) {
        lemma_position_exists(a, w);
        let k = position(a, w)->0;
        assert(is_first_index(s, w, k)) by {
            assert forall|j: int| 0 <= j < k implies s[j] != w by {
                assert(a[j] != w);
            }
        }
        lemma_position(s, w, k);
    } else {
        lemma_position_exists(b, w);
        let k = a.len() + position(b, w)->0;
        assert(is_first_index(s, w, k)) by {
            assert forall|j: int| 0 <= j < k implies s[j] != w by {
                if j < a.len() {
                    assert(s[j] == a[j]);
                } else {
                    assert(b[j - a.len()] != w);
                }
            }
        }
        lemma_position(s, w, k);
    }
}

/// A window that is inserted next to another one stands right behind it, and
/// the others keep their order.
pub proof fn law_inserted_stands_behind_target(
    t: Tree,
    new: WindowId,
    target: WindowId,
    rect: Rect,
)
    requires
        t.wf(),
        t.windows().contains(target),
    ensures
        t.inserted(new, Some(target), rect).windows() == t.windows().insert(
            position(t.windows(), target)->0 + 1,
            new,
        ),
    decreases t,
{
    let after = t.inserted(new, Some(target), rect);
    match t {
        Tree::Leaf { window: None } => {},
        Tree::Leaf { window: Some(w) } => {
            reveal_with_fuel(Tree::windows, 2);
            assert(is_first_index(t.windows(), target, 0));
            lemma_position(t.windows(), target, 0);
            assert(after.windows() =~= t.windows().insert(1, new));
        },
        Tree::Internal { split, ratio, left, right } => {
            let parts = rect.parts(split, ratio);
            lemma_contains_concat(left.windows(), right.windows(), target);
            lemma_position_concat(left.windows(), right.windows(), target);
            let at = position(t.windows(), target)->0 + 1;
            if left.windows().contains(target) {
                law_inserted_stands_behind_target(*left, new, target, parts.0);
                assert(after.windows() =~= t.windows().insert(at, new));
            } else {
                law_inserted_stands_behind_target(*right, new, target, parts.1);
                assert(after.windows() =~= t.windows().insert(at, new));
            }
        },
        Tree::Stack { .. } => {},
    }
}

/// Whether two trees differ at most in which windows of their stacks are shown.
pub open spec fn same_but_shown(a: Tree, b: Tree) -> bool
    decreases a,
{
    match (a, b) {
        (Tree::Leaf { .. }, Tree::Leaf { .. }) => a == b,
        (
            Tree::Stack { windows: v, previous: p, .. },
            Tree::Stack { windows: w, previous: q, .. },
        ) => v == w && same_but_shown(*p, *q),
        (
            Tree::Internal { split: s, ratio: r, left: k, right: l },
            Tree::Internal { split: u, ratio: v, left: m, right: n },
        ) => s == u && r == v && same_but_shown(*k, *m) && same_but_shown(*l, *n),
        _ => false,
    }
}

proof fn lemma_same_as_itself(t: Tree)
    ensures
        same_but_shown(t, t),
    decreases t,
{
    match t {
        Tree::Leaf { .. } => {},
        Tree::Stack { previous, .. } => {
            lemma_same_as_itself(*previous);
        },
        Tree::Internal { left, right, .. } => {
            lemma_same_as_itself(*left);
            lemma_same_as_itself(*right);
        },
    }
}

/// Taking a window out right after it was inserted gives the tree back. If it
/// went into a stack, that may show another window than before; nothing else
/// differs.
pub proof fn law_remove_undoes_insert(
    t: Tree,
    new: WindowId,
    target: Option<WindowId>,
    rect: Rect,
)
    requires
        t.wf(),
        !t.windows().contains(new),
    ensures
        t.inserted(new, target, rect).removed(new).windows() == t.windows(),
        same_but_shown(t.inserted(new, target, rect).removed(new), t),
        !t.inserted(new, target, rect).in_stack(new) ==> t.inserted(new, target, rect).removed(new)
            == t,
    decreases t,
{
    let after = t.inserted(new, target, rect);
    let back = after.removed(new);
    law_insert_adds_window(t, new, target, rect);
    match t {
        Tree::Leaf { window: None } => {},
        Tree::Leaf { window: Some(w) } => {
            reveal_with_fuel(Tree::windows, 2);
            reveal_with_fuel(Tree::removed, 2);
            assert(t.windows()[0] == w);
            assert(Tree::leaf(new).windows()[0] == new);
        },
        Tree::Internal { split, ratio, left, right } => {
            let parts = rect.parts(split, ratio);
            lemma_contains_concat(left.windows(), right.windows(), new);
            lemma_same_as_itself(*left);
            lemma_same_as_itself(*right);
            if target is Some && left.windows().contains(target->0) {
                law_remove_undoes_insert(*left, new, target, parts.0);
                law_insert_adds_window(*left, new, target, parts.0);
            } else {
                let below = if target is Some && right.windows().contains(target->0) {
                    target
                } else {
                    None
                };
                law_remove_undoes_insert(*right, new, below, parts.1);
                law_insert_adds_window(*right, new, below, parts.1);
            }
        },
        Tree::Stack { windows, active, previous } => {
            lemma_stack_slot(windows, active, target);
            let at = stack_slot(windows, active, target);
            let more = windows.insert(at, new);
            assert(is_first_index(more, new, at)) by {
                assert forall|j: int| 0 <= j < at implies more[j] != new by {
                    assert(more[j] == windows[j]);
                }
            }
            lemma_position(more, new, at);
            assert(more.remove(at) =~= windows);
            assert(!previous.windows().contains(new)) by {
                if previous.windows().contains(new) {
                    assert(previous.windows().to_multiset().count(new) > 0);
                    assert(windows.to_multiset().count(new) > 0);
                }
            }
            law_remove_undoes_insert(*previous, new, target, rect);
        },
    }
}

proof fn lemma_stack_slot(windows: Seq<WindowId>, active: int, target: Option<WindowId>)
    ensures
        active >= -1 ==> 0 <= stack_slot(windows, active, target) <= windows.len(),
{
    if target is Some && windows.contains(target->0) {
        lemma_position_exists(windows, target->0);
    }
}

/// Inserting keeps the tree well-formed, and valid if the window is new.
pub proof fn law_insert_keeps_wf(t: Tree, new: WindowId, target: Option<WindowId>, rect: Rect)
    requires
        t.wf(),
    ensures
        t.inserted(new, target, rect).wf(),
        t.valid() && !t.windows().contains(new) ==> t.inserted(new, target, rect).valid(),
    decreases t,
{
    let after = t.inserted(new, target, rect);
    law_insert_adds_window(t, new, target, rect);
    match t {
        Tree::Leaf { window: None } => {},
        Tree::Leaf { window: Some(w) } => {
            reveal_with_fuel(Tree::wf, 2);
            assert(Tree::leaf(w).windows().len() == 1);
            assert(Tree::leaf(new).windows().len() == 1);
        },
        Tree::Internal { split, ratio, left, right } => {
            let parts = rect.parts(split, ratio);
            if target is Some && left.windows().contains(target->0) {
                law_insert_keeps_wf(*left, new, target, parts.0);
                law_insert_adds_window(*left, new, target, parts.0);
            } else {
                let below = if target is Some && right.windows().contains(target->0) {
                    target
                } else {
                    None
                };
                law_insert_keeps_wf(*right, new, below, parts.1);
                law_insert_adds_window(*right, new, below, parts.1);
            }
        },
        Tree::Stack { windows, active, previous } => {
            lemma_stack_slot(windows, active, target);
            law_insert_keeps_wf(*previous, new, target, rect);
            law_insert_adds_window(*previous, new, target, rect);
        },
    }
    if t.valid() && !t.windows().contains(new) {
        lemma_insert_distinct(t.windows(), after.windows(), new);
    }
}

/// One more value than a sequence without duplicates, and a new one.
proof fn lemma_insert_distinct(before: Seq<WindowId>, after: Seq<WindowId>, new: WindowId)
    requires
        before.no_duplicates(),
        !before.contains(new),
        after.to_multiset() == before.to_multiset().insert(new),
    ensures
        after.no_duplicates(),
{
    before.lemma_multiset_has_no_duplicates();
    assert forall|x: WindowId| after.to_multiset().contains(x) implies after.to_multiset().count(x)
        == 1 by {
        if x == new {
            assert(before.to_multiset().count(new) == 0);
        } else {
            assert(before.to_multiset().contains(x));
        }
    }
    after.lemma_multiset_has_no_duplicates_conv();
}

/// Removing a window takes exactly one occurrence of it away.
pub proof fn law_remove_takes_window(t: Tree, w: WindowId)
    requires
        t.wf(),
        t.windows().contains(w),
    ensures
        t.removed(w).windows().to_multiset() == t.windows().to_multiset().remove(w),
        t.removed(w).windows().len() == t.windows().len() - 1,
    decreases t,
{
    match t {
        Tree::Leaf { window: Some(x) } => {
            assert(t.windows() =~= seq![x]);
            assert(t.windows().remove(0) =~= Seq::<WindowId>::empty());
            assert(t.windows().remove(0).to_multiset() == t.windows().to_multiset().remove(x));
        },
        Tree::Leaf { window: None } => {},
        Tree::Stack { windows, active, previous } => {
            lemma_position_exists(windows, w);
            let idx = position(windows, w)->0;
            let rest = windows.remove(idx);
            if rest.len() == 1 {
                assert(Tree::leaf(rest[0]).windows() =~= rest);
            }
        },
        Tree::Internal { left, right, .. } => {
            lemma_contains_concat(left.windows(), right.windows(), w);
            vstd::seq_lib::lemma_multiset_commutative(left.windows(), right.windows());
            if left.windows().contains(w) {
                law_remove_takes_window(*left, w);
                let l = left.removed(w);
                vstd::seq_lib::lemma_multiset_commutative(l.windows(), right.windows());
                assert(left.windows().to_multiset().count(w) > 0);
                if l == Tree::empty() {
                    assert(l.windows() + right.windows() =~= right.windows());
                }
            } else {
                law_remove_takes_window(*right, w);
                let r = right.removed(w);
                vstd::seq_lib::lemma_multiset_commutative(left.windows(), r.windows());
                assert(right.windows().to_multiset().count(w) > 0);
                if r == Tree::empty() {
                    assert(left.windows() + r.windows() =~= left.windows());
                }
            }
            assert(t.removed(w).windows().to_multiset() =~= t.windows().to_multiset().remove(w));
        },
    }
}

/// Removing keeps the tree well-formed and valid.
pub proof fn law_remove_keeps_wf(t: Tree, w: WindowId)
    requires
        t.wf(),
    ensures
        t.removed(w).wf(),
        t.valid() ==> t.removed(w).valid(),
        t.valid() ==> !t.removed(w).windows().contains(w),
    decreases t,
{
    if !t.windows().contains(w) {
        lemma_removed_absent(t, w);
    } else {
        law_remove_takes_window(t, w);
        match t {
            Tree::Leaf { .. } => {},
            Tree::Stack { windows, active, previous } => {
                lemma_position_exists(windows, w);
                assert(previous.windows().to_multiset().count(w) > 0);
                law_remove_takes_window(*previous, w);
                law_remove_keeps_wf(*previous, w);
            },
            Tree::Internal { left, right, .. } => {
                lemma_contains_concat(left.windows(), right.windows(), w);
                if left.windows().contains(w) {
                    law_remove_keeps_wf(*left, w);
                    law_empty_iff_no_windows(left.removed(w));
                } else {
                    law_remove_keeps_wf(*right, w);
                    law_empty_iff_no_windows(right.removed(w));
                }
            },
        }
        if t.valid() {
            let before = t.windows();
            let after = t.removed(w).windows();
            before.lemma_multiset_has_no_duplicates();
            assert forall|x: WindowId|
                after.to_multiset().contains(x) implies after.to_multiset().count(x) == 1 by {
                assert(before.to_multiset().contains(x));
            }
            after.lemma_multiset_has_no_duplicates_conv();
            assert(before.to_multiset().count(w) == 1) by {
                assert(before.to_multiset().contains(w));
            }
            assert(after.to_multiset().count(w) == 0);
        }
    }
}

/// Equalizing changes no window and keeps the tree well-formed.
pub proof fn law_equalize_keeps_windows(t: Tree)
    requires
        t.wf(),
    ensures
        t.equalized().windows() == t.windows(),
        t.equalized().wf(),
        t.equalized().equalized() == t.equalized(),
    decreases t,
{
    match t {
        Tree::Internal { left, right, .. } => {
            law_equalize_keeps_windows(*left);
            law_equalize_keeps_windows(*right);
        },
        _ => {},
    }
}

/// Resizing changes no window and keeps every ratio in range.
pub proof fn law_resize_keeps_windows(t: Tree, w: WindowId, direction: Direction, delta: i64)
    requires
        t.wf(),
    ensures
        t.resized(w, direction, delta).windows() == t.windows(),
        t.resized(w, direction, delta).wf(),
    decreases t,
{
    match t {
        Tree::Internal { left, right, .. } => {
            law_resize_keeps_windows(*left, w, direction, delta);
            law_resize_keeps_windows(*right, w, direction, delta);
        },
        _ => {},
    }
}

/// Swapping exchanges the two windows in the order of windows and nothing else.
pub proof fn law_swap_exchanges(t: Tree, a: WindowId, b: WindowId)
    ensures
        t.swapped(a, b).windows() == exchange_all(t.windows(), a, b),
    decreases t,
{
    match t {
        Tree::Leaf { window: Some(w) } => {
            assert(t.swapped(a, b).windows() =~= exchange_all(t.windows(), a, b));
        },
        Tree::Leaf { window: None } => {
            assert(t.swapped(a, b).windows() =~= exchange_all(t.windows(), a, b));
        },
        Tree::Stack { .. } => {},
        Tree::Internal { left, right, .. } => {
            law_swap_exchanges(*left, a, b);
            law_swap_exchanges(*right, a, b);
            assert(t.swapped(a, b).windows() =~= exchange_all(t.windows(), a, b));
        },
    }
}

/// An exchanged sequence holds each window as often as the one before held the
/// window exchanged for it.
proof fn lemma_exchange_count(s: Seq<WindowId>, a: WindowId, b: WindowId, x: WindowId)
    ensures
        exchange_all(s, a, b).to_multiset().count(x) == s.to_multiset().count(exchange(x, a, b)),
    decreases s.len(),
{
    let e = exchange_all(s, a, b);
    if s.len() == 0 {
        assert(e =~= Seq::<WindowId>::empty());
        assert(s =~= Seq::<WindowId>::empty());
    } else {
        let rest = s.drop_last();
        lemma_exchange_count(rest, a, b, x);
        assert(s =~= rest.push(s.last()));
        assert(e =~= exchange_all(rest, a, b).push(exchange(s.last(), a, b)));
    }
}

/// Exchanging keeps sequences with the same windows the same.
proof fn lemma_exchange_same(s: Seq<WindowId>, t: Seq<WindowId>, a: WindowId, b: WindowId)
    requires
        s.to_multiset() == t.to_multiset(),
    ensures
        exchange_all(s, a, b).to_multiset() == exchange_all(t, a, b).to_multiset(),
{
    assert forall|x: WindowId|
        exchange_all(s, a, b).to_multiset().count(x) == exchange_all(
            t,
            a,
            b,
        ).to_multiset().count(x) by {
        lemma_exchange_count(s, a, b, x);
        lemma_exchange_count(t, a, b, x);
    }
    assert(exchange_all(s, a, b).to_multiset() =~= exchange_all(t, a, b).to_multiset());
}

/// Swapping keeps the tree well-formed and valid.
pub proof fn law_swap_keeps_wf(t: Tree, a: WindowId, b: WindowId)
    requires
        t.wf(),
    ensures
        t.swapped(a, b).wf(),
        t.valid() ==> t.swapped(a, b).valid(),
    decreases t,
{
    law_swap_exchanges(t, a, b);
    match t {
        Tree::Leaf { .. } => {},
        Tree::Stack { windows, active, previous } => {
            law_swap_keeps_wf(*previous, a, b);
            law_swap_exchanges(*previous, a, b);
            lemma_exchange_same(previous.windows(), windows, a, b);
            if windows.contains(a) {
                lemma_position_exists(windows, a);
            }
            if windows.contains(b) {
                lemma_position_exists(windows, b);
            }
        },
        Tree::Internal { left, right, .. } => {
            law_swap_keeps_wf(*left, a, b);
            law_swap_keeps_wf(*right, a, b);
            law_swap_exchanges(*left, a, b);
            law_swap_exchanges(*right, a, b);
        },
    }
}

/// Two sequences with the same windows have duplicates both or neither.
proof fn lemma_same_distinct(s: Seq<WindowId>, t: Seq<WindowId>)
    requires
        s.to_multiset() == t.to_multiset(),
        s.no_duplicates(),
    ensures
        t.no_duplicates(),
{
    s.lemma_multiset_has_no_duplicates();
    t.lemma_multiset_has_no_duplicates_conv();
}

/// The sides of a split of a valid tree are valid and share no window.
pub proof fn lemma_valid_sides(t: Tree)
    requires
        t.valid(),
        t is Internal,
    ensures
        t->left.valid(),
        t->right.valid(),
        forall|w: WindowId|
            !(#[trigger] t->left.windows().contains(w) && t->right.windows().contains(w)),
{
    let l = t->left.windows();
    let r = t->right.windows();
    let all = t.windows();
    assert(all == l + r);
    assert forall|i: int, j: int| 0 <= i < l.len() && 0 <= j < l.len() && i != j implies l[i]
        != l[j] by {
        assert(all[i] == l[i] && all[j] == l[j]);
    }
    assert forall|i: int, j: int| 0 <= i < r.len() && 0 <= j < r.len() && i != j implies r[i]
        != r[j] by {
        assert(all[l.len() + i] == r[i] && all[l.len() + j] == r[j]);
    }
    assert forall|w: WindowId| !(#[trigger] l.contains(w) && r.contains(w)) by {
        if l.contains(w) && r.contains(w) {
            let i = choose|i: int| 0 <= i < l.len() && l[i] == w;
            let j = choose|j: int| 0 <= j < r.len() && r[j] == w;
            assert(all[i] == w && all[l.len() + j] == w);
        }
    }
}

/// Swapping twice gives the tree back.
pub proof fn law_swap_is_involution(t: Tree, a: WindowId, b: WindowId)
    requires
        t.valid(),
    ensures
        t.swapped(a, b).swapped(a, b) == t,
    decreases t,
{
    match t {
        Tree::Leaf { .. } => {},
        Tree::Stack { windows, active, previous } => {
            lemma_same_distinct(windows, previous.windows());
            law_swap_is_involution(*previous, a, b);
            let e = exchange_all(windows, a, b);
            assert(exchange_all(e, a, b) =~= windows);
            if windows[active] == a && windows.contains(b) {
                lemma_position_exists(windows, b);
                assert(e[position(windows, b)->0] == a);
                assert(e[active] == b);
                assert(is_first_index(e, b, active));
                lemma_position(e, b, active);
            } else if windows[active] == b && windows.contains(a) {
                lemma_position_exists(windows, a);
                assert(e[position(windows, a)->0] == b);
                assert(e[active] == a);
                assert(is_first_index(e, a, active));
                lemma_position(e, a, active);
            } else {
                if e.contains(a) {
                    let i = choose|i: int| 0 <= i < e.len() && e[i] == a;
                    assert(windows[i] == b);
                }
                if e.contains(b) {
                    let i = choose|i: int| 0 <= i < e.len() && e[i] == b;
                    assert(windows[i] == a);
                }
            }
        },
        Tree::Internal { left, right, .. } => {
            lemma_valid_sides(t);
            law_swap_is_involution(*left, a, b);
            law_swap_is_involution(*right, a, b);
        },
    }
}

/// Choosing the active window of a stack changes no window.
pub proof fn law_activate_keeps_windows(t: Tree, w: WindowId)
    requires
        t.wf(),
    ensures
        t.activated(w).windows() == t.windows(),
        t.activated(w).wf(),
    decreases t,
{
    match t {
        Tree::Leaf { .. } => {},
        Tree::Stack { windows, .. } => {
            if windows.contains(w) {
                lemma_position_exists(windows, w);
            }
        },
        Tree::Internal { left, right, .. } => {
            law_activate_keeps_windows(*left, w);
            law_activate_keeps_windows(*right, w);
        },
    }
}

/// Cycling through a stack changes no window.
pub proof fn law_cycle_keeps_windows(t: Tree, w: WindowId, forward: bool)
    requires
        t.wf(),
    ensures
        t.cycled(w, forward).windows() == t.windows(),
        t.cycled(w, forward).wf(),
    decreases t,
{
    match t {
        Tree::Leaf { .. } => {},
        Tree::Stack { .. } => {},
        Tree::Internal { left, right, .. } => {
            law_cycle_keeps_windows(*left, w, forward);
            law_cycle_keeps_windows(*right, w, forward);
        },
    }
}

/// Cycling one way and then the other gives the tree back.
pub proof fn law_cycle_back(t: Tree, w: WindowId, forward: bool)
    requires
        t.wf(),
        t.cycle_target(w, forward) is Some,
    ensures
        t.cycled(w, forward).cycled(w, !forward) == t,
    decreases t,
{
    match t {
        Tree::Leaf { .. } => {},
        Tree::Stack { .. } => {},
        Tree::Internal { left, right, .. } => {
            lemma_cycled_same_stacks(*left, w, forward);
            if left.in_stack(w) {
                law_cycle_back(*left, w, forward);
            } else {
                law_cycle_back(*right, w, forward);
            }
        },
    }
}

proof fn lemma_cycled_same_stacks(t: Tree, w: WindowId, forward: bool)
    ensures
        t.cycled(w, forward).in_stack(w) == t.in_stack(w),
    decreases t,
{
    match t {
        Tree::Leaf { .. } => {},
        Tree::Stack { .. } => {},
        Tree::Internal { left, right, .. } => {
            lemma_cycled_same_stacks(*left, w, forward);
            lemma_cycled_same_stacks(*right, w, forward);
        },
    }
}

/// Moving a window within its stack keeps the windows of the tree.
pub proof fn law_reorder_keeps_windows(t: Tree, w: WindowId, forward: bool)
    requires
        t.valid(),
    ensures
        t.reordered(w, forward).windows().to_multiset() == t.windows().to_multiset(),
        t.reordered(w, forward).valid(),
    decreases t,
{
    match t {
        Tree::Leaf { .. } => {},
        Tree::Stack { windows, previous, .. } => {
            if windows.contains(w) {
                lemma_position_exists(windows, w);
                let idx = position(windows, w)->0;
                let other = if forward { idx + 1 } else { idx - 1 };
                if 0 <= other < windows.len() {
                    let x = windows[other];
                    let moved = windows.update(idx, x).update(other, w);
                    assert(moved =~= exchange_all(windows, w, x)) by {
                        assert forall|i: int| 0 <= i < windows.len() implies moved[i] == exchange(
                            windows[i],
                            w,
                            x,
                        ) by {
                            if i != idx && i != other {
                                assert(windows[i] != windows[idx]);
                                assert(windows[i] != windows[other]);
                            }
                        }
                    }
                    assert(windows[idx] != windows[other]);
                    assert(moved.to_multiset() =~= windows.to_multiset()) by {
                        windows.lemma_multiset_has_no_duplicates();
                        assert(windows.to_multiset().contains(w));
                        assert(windows.to_multiset().contains(x));
                        assert forall|y: WindowId|
                            moved.to_multiset().count(y) == windows.to_multiset().count(y) by {
                            lemma_exchange_count(windows, w, x, y);
                        }
                    }
                    law_swap_keeps_wf(*previous, w, x);
                    law_swap_exchanges(*previous, w, x);
                    lemma_exchange_same(previous.windows(), windows, w, x);
                    lemma_same_distinct(windows, moved);
                }
            }
        },
        Tree::Internal { left, right, .. } => {
            lemma_valid_sides(t);
            law_reorder_keeps_windows(*left, w, forward);
            law_reorder_keeps_windows(*right, w, forward);
            let l = left.reordered(w, forward).windows();
            let r = right.reordered(w, forward).windows();
            let (l2, r2) = if left.in_stack(w) {
                (l, right.windows())
            } else {
                (left.windows(), r)
            };
            vstd::seq_lib::lemma_multiset_commutative(left.windows(), right.windows());
            vstd::seq_lib::lemma_multiset_commutative(l2, r2);
            lemma_same_distinct(t.windows(), t.reordered(w, forward).windows());
            assert(l2.len() == l2.to_multiset().len() && r2.len() == r2.to_multiset().len());
            assert(left.windows().len() == left.windows().to_multiset().len());
            assert(right.windows().len() == right.windows().to_multiset().len());
        },
    }
}

/// Promoting a window keeps the windows of the tree; where it is in a stack,
/// it is then the active window at the top of it.
pub proof fn law_promote(t: Tree, w: WindowId)
    requires
        t.valid(),
    ensures
        t.promoted(w).windows().to_multiset() == t.windows().to_multiset(),
        t.promoted(w).valid(),
        t.in_stack(w) ==> match t.promoted(w).stack_of(w) {
            Some((members, active)) => members.len() > 0 && members[0] == w && active == 0,
            None => false,
        },
        t.promoted(w).in_stack(w) == t.in_stack(w),
    decreases t,
{
    match t {
        Tree::Leaf { .. } => {},
        Tree::Stack { windows, .. } => {
            if windows.contains(w) {
                lemma_position_exists(windows, w);
                let idx = position(windows, w)->0;
                let moved = windows.remove(idx).insert(0, w);
                assert(windows.to_multiset().count(w) > 0);
                assert(moved.to_multiset() =~= windows.to_multiset());
                lemma_same_distinct(windows, moved);
                assert(moved[0] == w);
            }
        },
        Tree::Internal { left, right, .. } => {
            lemma_valid_sides(t);
            law_promote(*left, w);
            law_promote(*right, w);
            let (l2, r2) = if left.in_stack(w) {
                (left.promoted(w).windows(), right.windows())
            } else {
                (left.windows(), right.promoted(w).windows())
            };
            vstd::seq_lib::lemma_multiset_commutative(left.windows(), right.windows());
            vstd::seq_lib::lemma_multiset_commutative(l2, r2);
            lemma_same_distinct(t.windows(), t.promoted(w).windows());
            assert(l2.len() == l2.to_multiset().len() && r2.len() == r2.to_multiset().len());
            assert(left.windows().len() == left.windows().to_multiset().len());
            assert(right.windows().len() == right.windows().to_multiset().len());
        },
    }
}

/// Making a stack keeps the windows in order, keeps the tree well-formed, and
/// puts `w` into a stack in which it is active.
pub proof fn law_stack_keeps_windows(t: Tree, w: WindowId)
    requires
        t.wf(),
    ensures
        t.stacked(w).windows() == t.windows(),
        t.stacked(w).wf(),
        t.can_stack(w) ==> t.stacked(w).in_stack(w),
    decreases t,
{
    match t {
        Tree::Internal { left, right, .. } => {
            law_stack_keeps_windows(*left, w);
            law_stack_keeps_windows(*right, w);
            lemma_contains_concat(left.windows(), right.windows(), w);
            if t.windows().contains(w) {
                lemma_position_exists(t.windows(), w);
            }
        },
        _ => {},
    }
}

/// Every window of a stack is a window of the tree.
proof fn lemma_in_stack_contained(t: Tree, w: WindowId)
    requires
        t.in_stack(w),
    ensures
        t.windows().contains(w),
    decreases t,
{
    match t {
        Tree::Leaf { .. } => {},
        Tree::Stack { .. } => {},
        Tree::Internal { left, right, .. } => {
            lemma_contains_concat(left.windows(), right.windows(), w);
            if left.in_stack(w) {
                lemma_in_stack_contained(*left, w);
            } else {
                lemma_in_stack_contained(*right, w);
            }
        },
    }
}

/// Taking a stack apart right after making it gives the tree back.
pub proof fn law_unstack_undoes_stack(t: Tree, w: WindowId)
    requires
        t.valid(),
        t.can_stack(w),
    ensures
        t.stacked(w).unstacked(w) == t,
    decreases t,
{
    let left = t->left;
    let right = t->right;
    lemma_valid_sides(t);
    lemma_contains_concat(left.windows(), right.windows(), w);
    if left.windows().contains(w) && left.can_stack(w) {
        law_unstack_undoes_stack(*left, w);
        law_stack_keeps_windows(*left, w);
    } else if !left.windows().contains(w) && right.can_stack(w) {
        law_unstack_undoes_stack(*right, w);
        law_stack_keeps_windows(*right, w);
        if left.in_stack(w) {
            lemma_in_stack_contained(*left, w);
        }
    }
}

/// Taking a stack apart keeps the windows and the shape of the tree.
pub proof fn law_unstack_keeps_windows(t: Tree, w: WindowId)
    requires
        t.wf(),
    ensures
        t.unstacked(w).windows().to_multiset() == t.windows().to_multiset(),
        t.unstacked(w).windows().len() == t.windows().len(),
        t.unstacked(w).wf(),
        t.valid() ==> t.unstacked(w).valid(),
    decreases t,
{
    match t {
        Tree::Leaf { .. } => {},
        Tree::Stack { windows, previous, .. } => {
            assert(windows.len() == windows.to_multiset().len());
            assert(previous.windows().len() == previous.windows().to_multiset().len());
        },
        Tree::Internal { left, right, .. } => {
            law_unstack_keeps_windows(*left, w);
            law_unstack_keeps_windows(*right, w);
            let (l2, r2) = if left.in_stack(w) {
                (left.unstacked(w).windows(), right.windows())
            } else {
                (left.windows(), right.unstacked(w).windows())
            };
            vstd::seq_lib::lemma_multiset_commutative(left.windows(), right.windows());
            vstd::seq_lib::lemma_multiset_commutative(l2, r2);
        },
    }
    if t.valid() {
        lemma_same_distinct(t.windows(), t.unstacked(w).windows());
    }
}

/// What concerns stacks leaves a tree alone that holds the window in no stack.
pub proof fn law_outside_stack(t: Tree, w: WindowId)
    requires
        !t.in_stack(w),
    ensures
        t.unstacked(w) == t,
        t.promoted(w) == t,
        t.activated(w) == t,
        t.stack_of(w) is None,
    decreases t,
{
    match t {
        Tree::Internal { left, right, .. } => {
            law_outside_stack(*left, w);
            law_outside_stack(*right, w);
        },
        _ => {},
    }
}

/// At the end of a stack cycling changes nothing.
pub proof fn law_cycle_stops_at_end(t: Tree, w: WindowId, forward: bool)
    requires
        t.cycle_target(w, forward) is None,
    ensures
        t.cycled(w, forward) == t,
    decreases t,
{
    match t {
        Tree::Internal { left, right, .. } => {
            if left.in_stack(w) {
                law_cycle_stops_at_end(*left, w, forward);
            } else {
                law_cycle_stops_at_end(*right, w, forward);
            }
        },
        _ => {},
    }
}

/// At the end of a stack reordering changes nothing.
pub proof fn law_reorder_stops_at_end(t: Tree, w: WindowId, forward: bool)
    requires
        !t.can_reorder(w, forward),
    ensures
        t.reordered(w, forward) == t,
    decreases t,
{
    match t {
        Tree::Internal { left, right, .. } => {
            if left.in_stack(w) {
                law_reorder_stops_at_end(*left, w, forward);
            } else {
                law_reorder_stops_at_end(*right, w, forward);
            }
        },
        _ => {},
    }
}

/// A split that cannot be resized stays as it is.
pub proof fn law_resize_needs_split(t: Tree, w: WindowId, direction: Direction, delta: i64)
    requires
        !t.can_resize(w, direction),
    ensures
        t.resized(w, direction, delta) == t,
    decreases t,
{
    match t {
        Tree::Internal { left, right, .. } => {
            if left.windows().contains(w) {
                law_resize_needs_split(*left, w, direction, delta);
            } else if right.windows().contains(w) {
                law_resize_needs_split(*right, w, direction, delta);
            }
        },
        _ => {},
    }
}

} // verus!
