//! What the operations on stacks show, and where a new window goes.
use vstd::prelude::*;
use crate::seqs::{is_first_index, lemma_position, lemma_position_exists, position};
use crate::wm::adjacency::rect_of;
use crate::wm::geometry::Rect;
use crate::wm::layout_laws::sane;
use crate::wm::resize_laws::{lemma_has_rect, lemma_rect_concat};
use crate::wm::tree::{lemma_contains_concat, Tree};
use crate::wm::tree_laws::lemma_valid_sides;
use crate::wm::window::WindowId;

verus! {

// --- Showing other members ---

proof fn lemma_cycled_stays(t: Tree, w: WindowId, forward: bool)
    ensures
        t.cycled(w, forward).in_stack(w) == t.in_stack(w),
    decreases t,
{
    if let Tree::Internal { left, right, .. } = t {
        lemma_cycled_stays(*left, w, forward);
        lemma_cycled_stays(*right, w, forward);
    }
}

/// Cycling forwards shows the member behind the one that is shown and backwards
/// the one before it, and goes to it; the order of the stack stays. At its end
/// nothing happens.
pub proof fn law_cycle_shows_next_member(t: Tree, w: WindowId, forward: bool)
    requires
        t.wf(),
        t.in_stack(w),
    ensures
        t.stack_of(w) is Some,
        ({
            let (members, shown) = t.stack_of(w)->0;
            let next = if forward {
                shown + 1
            } else {
                shown - 1
            };
            &&& members.contains(w)
            &&& 0 <= shown < members.len()
            &&& if 0 <= next < members.len() {
                &&& t.cycle_target(w, forward) == Some(members[next])
                &&& t.cycled(w, forward).stack_of(w) == Some((members, next))
            } else {
                &&& t.cycle_target(w, forward) is None
                &&& t.cycled(w, forward) == t
            }
        }),
    decreases t,
{
    if let Tree::Internal { left, right, .. } = t {
        if left.in_stack(w) {
            law_cycle_shows_next_member(*left, w, forward);
            lemma_cycled_stays(*left, w, forward);
        } else {
            law_cycle_shows_next_member(*right, w, forward);
            lemma_cycled_stays(*right, w, forward);
        }
    }
}

proof fn lemma_activated_stays(t: Tree, w: WindowId)
    ensures
        t.activated(w).in_stack(w) == t.in_stack(w),
    decreases t,
{
    if let Tree::Internal { left, right, .. } = t {
        lemma_activated_stays(*left, w);
        lemma_activated_stays(*right, w);
    }
}

/// Choosing a member of a stack shows it and keeps the order.
pub proof fn law_chosen_member_is_shown(t: Tree, w: WindowId)
    requires
        t.in_stack(w),
    ensures
        match t.activated(w).stack_of(w) {
            Some((members, shown)) => {
                &&& 0 <= shown < members.len()
                &&& members[shown] == w
                &&& t.stack_of(w) matches Some((before, _)) && members == before
            },
            None => false,
        },
    decreases t,
{
    match t {
        Tree::Stack { windows, .. } => {
            lemma_position_exists(windows, w);
        },
        Tree::Internal { left, right, .. } => {
            if left.in_stack(w) {
                law_chosen_member_is_shown(*left, w);
                lemma_activated_stays(*left, w);
            } else {
                law_chosen_member_is_shown(*right, w);
                lemma_activated_stays(*right, w);
            }
        },
        _ => {},
    }
}

// --- Another order ---

proof fn lemma_reordered_stays(t: Tree, w: WindowId, forward: bool)
    requires
        t.valid(),
    ensures
        t.reordered(w, forward).in_stack(w) == t.in_stack(w),
    decreases t,
{
    match t {
        Tree::Stack { windows, .. } => {
            if windows.contains(w) {
                lemma_position_exists(windows, w);
                let i = position(windows, w)->0;
                let j = if forward {
                    i + 1
                } else {
                    i - 1
                };
                if 0 <= j < windows.len() {
                    assert(windows.update(i, windows[j]).update(j, w)[j] == w);
                }
            }
        },
        Tree::Internal { left, right, .. } => {
            lemma_valid_sides(t);
            lemma_reordered_stays(*left, w, forward);
            lemma_reordered_stays(*right, w, forward);
        },
        _ => {},
    }
}

/// Moving a member forwards puts it one place further back in its stack and
/// backwards one place further to the front, trades it with the member that was
/// there, and shows it. At the end of the stack nothing happens.
pub proof fn law_reorder_moves_member_one_place(t: Tree, w: WindowId, forward: bool, at: int)
    requires
        t.valid(),
        t.in_stack(w),
        ({
            let (members, _) = t.stack_of(w)->0;
            0 <= at < members.len() && members[at] == w
        }),
    ensures
        ({
            let (members, _) = t.stack_of(w)->0;
            let to = if forward {
                at + 1
            } else {
                at - 1
            };
            if 0 <= to < members.len() {
                &&& t.can_reorder(w, forward)
                &&& t.reordered(w, forward).stack_of(w) matches Some((now, shown)) && {
                    &&& shown == to
                    &&& now.len() == members.len()
                    &&& now[to] == w
                    &&& now[at] == members[to]
                    &&& forall|k: int|
                        0 <= k < members.len() && k != at && k != to ==> #[trigger] now[k]
                            == members[k]
                }
            } else {
                &&& !t.can_reorder(w, forward)
                &&& t.reordered(w, forward) == t
            }
        }),
    decreases t,
{
    match t {
        Tree::Stack { windows, .. } => {
            assert(is_first_index(windows, w, at));
            lemma_position(windows, w, at);
            let to = if forward {
                at + 1
            } else {
                at - 1
            };
            if 0 <= to < windows.len() {
                assert(windows.update(at, windows[to]).update(to, w)[to] == w);
            }
        },
        Tree::Internal { left, right, .. } => {
            lemma_valid_sides(t);
            if left.in_stack(w) {
                law_reorder_moves_member_one_place(*left, w, forward, at);
                lemma_reordered_stays(*left, w, forward);
            } else {
                law_reorder_moves_member_one_place(*right, w, forward, at);
                lemma_reordered_stays(*right, w, forward);
            }
        },
        _ => {},
    }
}

// --- New stacks ---

/// A stack is made of the smallest split around a window: of its own side where
/// that has another slot, and of both sides where it has not. The window is
/// shown.
pub proof fn law_stack_is_made_of_smallest_split(t: Tree, w: WindowId)
    requires
        t.wf(),
        t is Internal,
        t.windows().contains(w),
        t.slots() > 1,
    ensures
        match t {
            Tree::Internal { left, right, .. } => {
                let (own, other) = if left.windows().contains(w) {
                    (*left, *right)
                } else {
                    (*right, *left)
                };
                if own is Internal && own.slots() > 1 {
                    match t.stacked(w) {
                        Tree::Internal { left: l, right: r, .. } => {
                            &&& (if left.windows().contains(w) {
                                *r
                            } else {
                                *l
                            }) == other
                            &&& (if left.windows().contains(w) {
                                *l
                            } else {
                                *r
                            }) == own.stacked(w)
                        },
                        _ => false,
                    }
                } else {
                    match t.stacked(w) {
                        Tree::Stack { windows, active, previous } => {
                            &&& windows == t.windows()
                            &&& 0 <= active < windows.len()
                            &&& windows[active] == w
                            &&& *previous == t
                        },
                        _ => false,
                    }
                }
            },
            _ => true,
        },
{
    if let Tree::Internal { left, right, .. } = t {
        lemma_contains_concat(left.windows(), right.windows(), w);
        lemma_position_exists(t.windows(), w);
    }
}

// --- New windows ---

/// Whether a rectangle is divided into two halves: side by side where it is
/// wider than high, else one above the other.
pub open spec fn is_halved(whole: Rect, first: Rect, second: Rect) -> bool {
    if whole.width > whole.height {
        &&& first.x == whole.x
        &&& second.x == first.x + first.width
        &&& second.x + second.width == whole.x + whole.width
        &&& 0 <= second.width - first.width <= 1
        &&& first.y == whole.y && second.y == whole.y
        &&& first.height == whole.height && second.height == whole.height
    } else {
        &&& first.y == whole.y
        &&& second.y == first.y + first.height
        &&& second.y + second.height == whole.y + whole.height
        &&& 0 <= second.height - first.height <= 1
        &&& first.x == whole.x && second.x == whole.x
        &&& first.width == whole.width && second.width == whole.width
    }
}

/// A new window gets half of the rectangle of the window next to which it is
/// inserted, on the right or at the bottom: whichever side of that rectangle is
/// longer is halved. All other windows stay where they are.
pub proof fn law_new_window_halves_target(
    t: Tree,
    new: WindowId,
    target: WindowId,
    rect: Rect,
)
    requires
        t.valid(),
        sane(rect),
        !t.windows().contains(new),
        t.windows().contains(target),
        !t.in_stack(target),
    ensures
        ({
            let before = t.geometries(rect, 0, 0, true);
            let after = t.inserted(new, Some(target), rect).geometries(rect, 0, 0, true);
            &&& rect_of(before, target) is Some
            &&& rect_of(after, target) is Some
            &&& rect_of(after, new) is Some
            &&& is_halved(
                rect_of(before, target)->0,
                rect_of(after, target)->0,
                rect_of(after, new)->0,
            )
            &&& forall|w: WindowId|
                w != new && w != target ==> #[trigger] rect_of(after, w) == rect_of(before, w)
        }),
{
    lemma_halves(t, new, target, rect);
    let after = t.inserted(new, Some(target), rect);
    assert(t.geometries(rect, 0, 0, true) == t.geometries(rect, 0, 0, false));
    assert(after.geometries(rect, 0, 0, true) == after.geometries(rect, 0, 0, false));
}

proof fn lemma_halves(t: Tree, new: WindowId, target: WindowId, rect: Rect)
    requires
        t.valid(),
        sane(rect),
        !t.windows().contains(new),
        t.windows().contains(target),
        !t.in_stack(target),
    ensures
        ({
            let before = t.geometries(rect, 0, 0, false);
            let after = t.inserted(new, Some(target), rect).geometries(rect, 0, 0, false);
            &&& rect_of(before, target) is Some
            &&& rect_of(after, target) is Some
            &&& rect_of(after, new) is Some
            &&& is_halved(
                rect_of(before, target)->0,
                rect_of(after, target)->0,
                rect_of(after, new)->0,
            )
            &&& forall|w: WindowId|
                w != new && w != target ==> #[trigger] rect_of(after, w) == rect_of(before, w)
        }),
    decreases t,
{
    let next = t.inserted(new, Some(target), rect);
    let before = t.geometries(rect, 0, 0, false);
    let after = next.geometries(rect, 0, 0, false);
    match t {
        Tree::Leaf { window: Some(x) } => {
            reveal_with_fuel(Tree::geometries, 2);
            assert(t.windows()[0] == x);
            assert(x == target) by {
                assert(t.windows() =~= seq![x]);
            }
            let split = crate::wm::tree::smart_split(rect);
            let parts = rect.parts(split, 500);
            assert(crate::wm::tree::gapped_parts(rect, split, 500, 0) == parts);
            assert(after =~= seq![(x, parts.0), (new, parts.1)]);
            assert(before =~= seq![(x, rect)]);
            assert(after.drop_first() =~= seq![(new, parts.1)]);
            assert(x != new);
            assert(rect_of(after, target) == Some(parts.0));
            assert(rect_of(after.drop_first(), new) == Some(parts.1));
            assert(rect_of(after, new) == Some(parts.1));
            assert forall|w: WindowId| w != new && w != target implies #[trigger] rect_of(after, w)
                == rect_of(before, w) by {
                assert(after.drop_first().drop_first() =~= seq![]);
                assert(before.drop_first() =~= seq![]);
                assert(rect_of(after.drop_first(), w) == rect_of(
                    after.drop_first().drop_first(),
                    w,
                ));
                assert(rect_of(before, w) == rect_of(before.drop_first(), w));
            }
        },
        Tree::Leaf { window: None } => {},
        Tree::Stack { .. } => {},
        Tree::Internal { split, ratio, left, right } => {
            lemma_valid_sides(t);
            lemma_contains_concat(left.windows(), right.windows(), target);
            lemma_contains_concat(left.windows(), right.windows(), new);
            crate::wm::layout_laws::law_split_parts_apart(rect, split, ratio, 0);
            let parts = rect.parts(split, ratio);
            assert(crate::wm::tree::gapped_parts(rect, split, ratio, 0) == parts);
            let gl = left.geometries(parts.0, 0, 0, false);
            let gr = right.geometries(parts.1, 0, 0, false);
            assert(before == gl + gr);
            if left.windows().contains(target) {
                let l = left.inserted(new, Some(target), parts.0);
                let gm = l.geometries(parts.0, 0, 0, false);
                lemma_halves(*left, new, target, parts.0);
                assert(after == gm + gr);
                assert forall|w: WindowId| #[trigger] rect_of(after, w) == (if rect_of(
                    gm,
                    w,
                ) is Some {
                    rect_of(gm, w)
                } else {
                    rect_of(gr, w)
                }) by {
                    lemma_rect_concat(gm, gr, w);
                }
                assert forall|w: WindowId| #[trigger] rect_of(before, w) == (if rect_of(
                    gl,
                    w,
                ) is Some {
                    rect_of(gl, w)
                } else {
                    rect_of(gr, w)
                }) by {
                    lemma_rect_concat(gl, gr, w);
                }
            } else {
                let r = right.inserted(new, Some(target), parts.1);
                let gm = r.geometries(parts.1, 0, 0, false);
                lemma_halves(*right, new, target, parts.1);
                assert(after == gl + gm);
                lemma_has_rect(*left, target, parts.0, 0, 0, false);
                lemma_has_rect(*left, new, parts.0, 0, 0, false);
                assert forall|w: WindowId| #[trigger] rect_of(after, w) == (if rect_of(
                    gl,
                    w,
                ) is Some {
                    rect_of(gl, w)
                } else {
                    rect_of(gm, w)
                }) by {
                    lemma_rect_concat(gl, gm, w);
                }
                assert forall|w: WindowId| #[trigger] rect_of(before, w) == (if rect_of(
                    gl,
                    w,
                ) is Some {
                    rect_of(gl, w)
                } else {
                    rect_of(gr, w)
                }) by {
                    lemma_rect_concat(gl, gr, w);
                }
            }
        },
    }
}

/// A window that is removed leaves its rectangle to its neighbours: taking the
/// new window out again gives every other window its rectangle back.
pub proof fn law_removed_window_leaves_room(
    t: Tree,
    new: WindowId,
    target: WindowId,
    rect: Rect,
    inner: i64,
    outer: i64,
)
    requires
        t.valid(),
        !t.windows().contains(new),
        t.windows().contains(target),
        !t.inserted(new, Some(target), rect).in_stack(new),
    ensures
        t.inserted(new, Some(target), rect).removed(new).geometries(rect, inner, outer, true)
            == t.geometries(rect, inner, outer, true),
{
    crate::wm::tree_laws::law_remove_undoes_insert(t, new, Some(target), rect);
}

/// Whether a tree has no stack.
pub open spec fn is_unstacked(t: Tree) -> bool
    decreases t,
{
    match t {
        Tree::Leaf { .. } => true,
        Tree::Stack { .. } => false,
        Tree::Internal { left, right, .. } => is_unstacked(*left) && is_unstacked(*right),
    }
}

/// Without a window to stand next to, a new window comes last in a tree without stacks.
pub proof fn law_new_window_comes_last(t: Tree, new: WindowId, rect: Rect)
    requires
        is_unstacked(t),
    ensures
        t.inserted(new, None, rect).windows() == t.windows().push(new),
    decreases t,
{
    match t {
        Tree::Leaf { window: Some(x) } => {
            reveal_with_fuel(Tree::windows, 2);
            assert(t.inserted(new, None, rect).windows() =~= seq![x, new]);
            assert(t.windows().push(new) =~= seq![x, new]);
        },
        Tree::Leaf { window: None } => {
            assert(Tree::leaf(new).windows() =~= seq![new]);
            assert(t.windows().push(new) =~= seq![new]);
        },
        Tree::Stack { .. } => {},
        Tree::Internal { split, ratio, left, right } => {
            law_new_window_comes_last(*right, new, rect.parts(split, ratio).1);
            assert(left.windows() + right.windows().push(new) =~= (left.windows()
                + right.windows()).push(new));
        },
    }
}

/// A new window in a stack stands behind the member next to which it is inserted, and is shown; the
/// others keep their order.
pub proof fn law_new_member_is_shown(
    windows: Seq<WindowId>,
    active: int,
    previous: Tree,
    new: WindowId,
    at: int,
    rect: Rect,
)
    requires
        0 <= at < windows.len(),
        windows.no_duplicates(),
    ensures
        ({
            let t = Tree::Stack { windows, active, previous: Box::new(previous) };
            t.inserted(new, Some(windows[at]), rect) matches Tree::Stack {
                windows: now,
                active: shown,
                ..
            } && {
                &&& shown == at + 1
                &&& now.len() == windows.len() + 1
                &&& now[at + 1] == new
                &&& forall|k: int| 0 <= k <= at ==> #[trigger] now[k] == windows[k]
                &&& forall|k: int| at + 1 < k < now.len() ==> #[trigger] now[k] == windows[k - 1]
            }
        }),
{
    assert(is_first_index(windows, windows[at], at));
    lemma_position(windows, windows[at], at);
}

// --- Windows that leave ---

/// The windows that stay keep their order.
pub proof fn law_removal_keeps_order(t: Tree, w: WindowId, at: int)
    requires
        t.valid(),
        0 <= at < t.windows().len(),
        t.windows()[at] == w,
    ensures
        t.removed(w).windows() == t.windows().remove(at),
    decreases t,
{
    match t {
        Tree::Leaf { window } => {
            assert(t.windows().remove(0) =~= seq![]);
            assert(Tree::empty().windows() =~= seq![]);
        },
        Tree::Stack { windows, .. } => {
            assert(is_first_index(windows, w, at));
            lemma_position(windows, w, at);
            let rest = windows.remove(at);
            if rest.len() == 0 {
                assert(Tree::empty().windows() =~= rest);
            } else if rest.len() == 1 {
                assert(Tree::leaf(rest[0]).windows() =~= rest);
            }
        },
        Tree::Internal { left, right, .. } => {
            lemma_valid_sides(t);
            let l = left.windows();
            let r = right.windows();
            if at < l.len() {
                assert(l[at] == w);
                law_removal_keeps_order(*left, w, at);
                assert(l.remove(at) + r =~= (l + r).remove(at));
                if left.removed(w) == Tree::empty() {
                    assert(Tree::empty().windows() =~= seq![]);
                    assert(l.remove(at) + r =~= r);
                }
            } else {
                assert(r[at - l.len()] == w);
                if l.contains(w) {
                    let k = choose|k: int| 0 <= k < l.len() && l[k] == w;
                    assert((l + r)[k] == w);
                }
                law_removal_keeps_order(*right, w, at - l.len());
                assert(l + r.remove(at - l.len()) =~= (l + r).remove(at));
                if right.removed(w) == Tree::empty() {
                    assert(Tree::empty().windows() =~= seq![]);
                    assert(l + r.remove(at - l.len()) =~= l);
                }
            }
        },
    }
}

/// When a member leaves a stack of three or more, the one that was shown stays shown; when that one
/// leaves, the one behind it is shown, or the one before it if it was the last.
pub proof fn law_leaving_member_uncovers_next(
    windows: Seq<WindowId>,
    active: int,
    previous: Tree,
    at: int,
)
    requires
        windows.len() >= 3,
        windows.no_duplicates(),
        0 <= active < windows.len(),
        0 <= at < windows.len(),
    ensures
        ({
            let t = Tree::Stack { windows, active, previous: Box::new(previous) };
            t.removed(windows[at]) matches Tree::Stack { windows: now, active: shown, .. } && {
                &&& now == windows.remove(at)
                &&& 0 <= shown < now.len()
                &&& at != active ==> now[shown] == windows[active]
                &&& at == active && at + 1 < windows.len() ==> now[shown] == windows[at + 1]
                &&& at == active && at + 1 == windows.len() ==> now[shown] == windows[at - 1]
            }
        }),
{
    assert(is_first_index(windows, windows[at], at));
    lemma_position(windows, windows[at], at);
}

/// When the only window of one side of a split leaves, the other side takes its place as it is.
pub proof fn law_split_gives_way(t: Tree, w: WindowId)
    requires
        t.valid(),
        t is Internal,
    ensures
        *(t->left) == (Tree::Leaf { window: Some(w) }) ==> t.removed(w) == *(t->right),
        *(t->right) == (Tree::Leaf { window: Some(w) }) ==> t.removed(w) == *(t->left),
{
    if let Tree::Internal { left, right, .. } = t {
        lemma_valid_sides(t);
        let l = left.windows();
        let r = right.windows();
        if *left == (Tree::Leaf { window: Some(w) }) {
            assert(l[0] == w);
            assert(l.contains(w));
            assert(left.removed(w) == Tree::empty());
        }
        if *right == (Tree::Leaf { window: Some(w) }) {
            assert(r[0] == w);
            assert(r.contains(w));
            assert(right.removed(w) == Tree::empty());
            if l.contains(w) {
                let k = choose|k: int| 0 <= k < l.len() && l[k] == w;
                assert(t.windows()[k] == w);
                assert(t.windows()[l.len() as int] == r[0]);
                assert(t.windows().no_duplicates());
            }
            assert(!l.contains(w));
        }
    }
}

/// Promoting a member puts it in front of the others, which keep their order.
pub proof fn law_promoted_member_comes_first(
    windows: Seq<WindowId>,
    active: int,
    previous: Tree,
    at: int,
)
    requires
        windows.no_duplicates(),
        0 <= at < windows.len(),
    ensures
        ({
            let t = Tree::Stack { windows, active, previous: Box::new(previous) };
            t.promoted(windows[at]) matches Tree::Stack { windows: now, active: shown, .. } && {
                &&& shown == 0
                &&& now.len() == windows.len()
                &&& now[0] == windows[at]
                &&& forall|k: int| 0 < k <= at ==> #[trigger] now[k] == windows[k - 1]
                &&& forall|k: int| at < k < now.len() ==> #[trigger] now[k] == windows[k]
            }
        }),
{
    assert(is_first_index(windows, windows[at], at));
    lemma_position(windows, windows[at], at);
}

} // verus!
