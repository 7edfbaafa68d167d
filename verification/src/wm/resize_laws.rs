//! What resizing does to the window that is resized.
use vstd::prelude::*;
use crate::wm::adjacency::rect_of;
use crate::wm::geometry::{Direction, Rect, SplitDirection};
use crate::wm::tree::{
    along, gapped_parts, lemma_contains_concat, padded_root, stack_background, Tree,
};
use crate::wm::tree_laws::law_resize_keeps_windows;
use crate::wm::window::WindowId;

verus! {

// --- Shares ---

/// The thousandths that the side with a window has in the outermost split of a
/// kind around it.
pub open spec fn own_share(t: Tree, w: WindowId, kind: SplitDirection) -> Option<int>
    decreases t,
{
    match t {
        Tree::Internal { split, ratio, left, right } => if left.windows().contains(w) {
            if split == kind {
                Some(ratio as int)
            } else {
                own_share(*left, w, kind)
            }
        } else if right.windows().contains(w) {
            if split == kind {
                Some(1000 - ratio)
            } else {
                own_share(*right, w, kind)
            }
        } else {
            None
        },
        _ => None,
    }
}

/// The splits that a move to the left or right crosses are those side by side,
/// and those that a move up or down crosses are those one above the other.
pub open spec fn crossed_kind(d: Direction) -> SplitDirection {
    match d {
        Direction::Left | Direction::Right => SplitDirection::Vertical,
        Direction::Up | Direction::Down => SplitDirection::Horizontal,
    }
}

/// Resizing to the right or down gives the side with the window so much more of
/// the outermost split across the direction, and to the left or up so much less,
/// on whichever side the window is. It gets nine tenths at most and keeps one
/// tenth at least. Splits of the other kind keep their shares, and without a
/// split across the direction nothing can be resized.
pub proof fn law_resize_changes_own_share(t: Tree, w: WindowId, d: Direction, delta: i64)
    requires
        t.wf(),
        delta >= 0,
    ensures
        t.can_resize(w, d) == (own_share(t, w, crossed_kind(d)) is Some),
        own_share(t, w, crossed_kind(d)) matches Some(before) ==> own_share(
            t.resized(w, d, delta),
            w,
            crossed_kind(d),
        ) == Some(
            if d == Direction::Right || d == Direction::Down {
                if before + delta > 900 {
                    900
                } else {
                    before + delta
                }
            } else {
                if before - delta < 100 {
                    100
                } else {
                    before - delta
                }
            },
        ),
        own_share(t, w, crossed_kind(d)) is None ==> t.resized(w, d, delta) == t,
        forall|kind: SplitDirection|
            kind != crossed_kind(d) ==> #[trigger] own_share(t.resized(w, d, delta), w, kind)
                == own_share(t, w, kind),
    decreases t,
{
    law_resize_keeps_windows(t, w, d, delta);
    if let Tree::Internal { split, ratio, left, right } = t {
        law_resize_keeps_windows(*left, w, d, delta);
        law_resize_keeps_windows(*right, w, d, delta);
        if !along(split, d) {
            if left.windows().contains(w) {
                law_resize_changes_own_share(*left, w, d, delta);
            } else if right.windows().contains(w) {
                law_resize_changes_own_share(*right, w, d, delta);
            }
        }
    }
}

// --- Rectangles ---

pub proof fn lemma_rect_concat(a: Seq<(WindowId, Rect)>, b: Seq<(WindowId, Rect)>, w: WindowId)
    ensures
        rect_of(a + b, w) == (if rect_of(a, w) is Some {
            rect_of(a, w)
        } else {
            rect_of(b, w)
        }),
    decreases a.len(),
{
    if a.len() == 0 {
        assert(a + b =~= b);
    } else {
        lemma_rect_concat(a.drop_first(), b, w);
        assert((a + b).drop_first() =~= a.drop_first() + b);
    }
}

/// All entries have a size, so the one that is found has it.
proof fn lemma_rect_size(s: Seq<(WindowId, Rect)>, w: WindowId, width: i64, height: i64)
    requires
        forall|i: int|
            0 <= i < s.len() ==> (#[trigger] s[i]).1.width == width && s[i].1.height == height,
    ensures
        rect_of(s, w) matches Some(r) ==> r.width == width && r.height == height,
        rect_of(s, w) is Some <==> exists|i: int| 0 <= i < s.len() && (#[trigger] s[i]).0 == w,
    decreases s.len(),
{
    if s.len() > 0 {
        let rest = s.drop_first();
        assert forall|i: int| 0 <= i < rest.len() implies (#[trigger] rest[i]).1.width == width
            && rest[i].1.height == height by {
            assert(rest[i] == s[i + 1]);
        }
        lemma_rect_size(rest, w, width, height);
        if rect_of(rest, w) is Some {
            let i = choose|i: int| 0 <= i < rest.len() && (#[trigger] rest[i]).0 == w;
            assert(s[i + 1].0 == w);
        }
        if exists|i: int| 0 <= i < s.len() && (#[trigger] s[i]).0 == w {
            let i = choose|i: int| 0 <= i < s.len() && (#[trigger] s[i]).0 == w;
            if i > 0 {
                assert(rest[i - 1].0 == w);
            }
        }
    }
}

/// A window has a rectangle if it is in the tree.
pub proof fn lemma_has_rect(t: Tree, w: WindowId, rect: Rect, inner: i64, outer: i64, root: bool)
    requires
        t.wf(),
    ensures
        rect_of(t.geometries(rect, inner, outer, root), w) is Some <==> t.windows().contains(w),
        !(t is Internal) ==> (rect_of(t.geometries(rect, inner, outer, root), w) matches Some(r)
            ==> r.width == padded_root(rect, outer, root).width && r.height == padded_root(
            rect,
            outer,
            root,
        ).height),
    decreases t,
{
    let g = t.geometries(rect, inner, outer, root);
    let padded = padded_root(rect, outer, root);
    match t {
        Tree::Leaf { window } => {
            lemma_rect_size(g, w, padded.width, padded.height);
            if t.windows().contains(w) {
                assert(g[0].0 == w);
            }
            if rect_of(g, w) is Some {
                assert(t.windows()[0] == w);
            }
        },
        Tree::Stack { windows, active, .. } => {
            lemma_rect_size(g, w, padded.width, padded.height);
            let back = stack_background(windows, active);
            let keep = |x: WindowId| !(0 <= active < windows.len() && x == windows[active]);
            assert(g[g.len() - 1].0 == windows[active]);
            if windows.contains(w) && w != windows[active] {
                let i = choose|i: int| 0 <= i < windows.len() && windows[i] == w;
                windows.lemma_filter_contains(keep, i);
                let k = choose|k: int| 0 <= k < back.len() && back[k] == w;
                assert(g[k].0 == w);
            }
            if rect_of(g, w) is Some {
                let k = choose|k: int| 0 <= k < g.len() && (#[trigger] g[k]).0 == w;
                if k < back.len() {
                    assert(back[k] == w);
                    assert(windows.filter(keep).contains(w));
                    windows.lemma_filter_contains_rev(keep, w);
                } else {
                    assert(windows[active] == w);
                }
            }
        },
        Tree::Internal { split, ratio, left, right } => {
            let parts = gapped_parts(padded, split, ratio, inner);
            lemma_has_rect(*left, w, parts.0, inner, outer, false);
            lemma_has_rect(*right, w, parts.1, inner, outer, false);
            lemma_rect_concat(
                left.geometries(parts.0, inner, outer, false),
                right.geometries(parts.1, inner, outer, false),
                w,
            );
            lemma_contains_concat(left.windows(), right.windows(), w);
        },
    }
}

proof fn lemma_longer(a: int, b: int, ratio: int)
    requires
        0 <= a <= b,
        0 <= ratio <= 1000,
    ensures
        0 <= a * ratio / 1000 <= b * ratio / 1000,
        0 <= a - a * ratio / 1000 <= b - b * ratio / 1000,
        b * ratio / 1000 <= b,
{
    let k = b - a;
    assert(b * ratio == a * ratio + k * ratio && 0 <= a * ratio <= 1000 * a && 0 <= k * ratio
        <= 1000 * k) by (nonlinear_arith)
        requires
            k == b - a,
            0 <= a <= b,
            0 <= ratio <= 1000,
    ;
}

proof fn lemma_larger_share(length: int, a: int, b: int)
    requires
        length >= 0,
        0 <= a <= b <= 1000,
    ensures
        0 <= length * a / 1000 <= length * b / 1000 <= length,
{
    assert(0 <= length * a <= length * b <= length * 1000) by (nonlinear_arith)
        requires
            length >= 0,
            0 <= a <= b <= 1000,
    ;
}

/// In a larger rectangle a window is not smaller, and its width depends on the
/// width alone, its height on the height.
proof fn lemma_larger_rect(t: Tree, w: WindowId, a: Rect, b: Rect, inner: i64, outer: i64)
    requires
        t.wf(),
        t.windows().contains(w),
        0 <= a.width <= b.width,
        0 <= a.height <= b.height,
    ensures
        ({
            let ra = rect_of(t.geometries(a, inner, outer, false), w)->0;
            let rb = rect_of(t.geometries(b, inner, outer, false), w)->0;
            &&& ra.width <= rb.width
            &&& ra.height <= rb.height
            &&& a.width == b.width ==> ra.width == rb.width
            &&& a.height == b.height ==> ra.height == rb.height
        }),
    decreases t,
{
    lemma_has_rect(t, w, a, inner, outer, false);
    lemma_has_rect(t, w, b, inner, outer, false);
    if let Tree::Internal { split, ratio, left, right } = t {
        let pa = gapped_parts(a, split, ratio, inner);
        let pb = gapped_parts(b, split, ratio, inner);
        lemma_longer(a.width as int, b.width as int, ratio as int);
        lemma_longer(a.height as int, b.height as int, ratio as int);
        lemma_has_rect(*left, w, pa.0, inner, outer, false);
        lemma_has_rect(*left, w, pb.0, inner, outer, false);
        lemma_has_rect(*right, w, pa.1, inner, outer, false);
        lemma_has_rect(*right, w, pb.1, inner, outer, false);
        lemma_rect_concat(
            left.geometries(pa.0, inner, outer, false),
            right.geometries(pa.1, inner, outer, false),
            w,
        );
        lemma_rect_concat(
            left.geometries(pb.0, inner, outer, false),
            right.geometries(pb.1, inner, outer, false),
            w,
        );
        lemma_contains_concat(left.windows(), right.windows(), w);
        if left.windows().contains(w) {
            lemma_larger_rect(*left, w, pa.0, pb.0, inner, outer);
        } else {
            lemma_larger_rect(*right, w, pa.1, pb.1, inner, outer);
        }
    }
}

/// Whether a rectangle is at least as long along a direction as another one,
/// and just as long across it.
pub open spec fn not_shorter(a: Rect, b: Rect, d: Direction) -> bool {
    match d {
        Direction::Left | Direction::Right => a.width >= b.width && a.height == b.height,
        Direction::Up | Direction::Down => a.height >= b.height && a.width == b.width,
    }
}

proof fn lemma_resized_rect(
    t: Tree,
    w: WindowId,
    d: Direction,
    delta: i64,
    rect: Rect,
    inner: i64,
    outer: i64,
)
    requires
        t.wf(),
        t.windows().contains(w),
        delta >= 0,
        rect.width >= 0,
        rect.height >= 0,
    ensures
        ({
            let before = rect_of(t.geometries(rect, inner, outer, false), w)->0;
            let after = rect_of(
                t.resized(w, d, delta).geometries(rect, inner, outer, false),
                w,
            )->0;
            if d == Direction::Right || d == Direction::Down {
                not_shorter(after, before, d)
            } else {
                not_shorter(before, after, d)
            }
        }),
    decreases t,
{
    if let Tree::Internal { split, ratio, left, right } = t {
        law_resize_keeps_windows(t, w, d, delta);
        law_resize_keeps_windows(*left, w, d, delta);
        law_resize_keeps_windows(*right, w, d, delta);
        lemma_contains_concat(left.windows(), right.windows(), w);
        let next = t.resized(w, d, delta);
        if let Tree::Internal { ratio: moved, left: l, right: r, .. } = next {
            let p = gapped_parts(rect, split, ratio, inner);
            let q = gapped_parts(rect, split, moved, inner);
            lemma_longer(rect.width as int, rect.width as int, ratio as int);
            lemma_longer(rect.height as int, rect.height as int, ratio as int);
            lemma_longer(rect.width as int, rect.width as int, moved as int);
            lemma_longer(rect.height as int, rect.height as int, moved as int);
            if ratio <= moved {
                lemma_larger_share(rect.width as int, ratio as int, moved as int);
                lemma_larger_share(rect.height as int, ratio as int, moved as int);
            } else {
                lemma_larger_share(rect.width as int, moved as int, ratio as int);
                lemma_larger_share(rect.height as int, moved as int, ratio as int);
            }
            lemma_has_rect(*left, w, p.0, inner, outer, false);
            lemma_has_rect(*right, w, p.1, inner, outer, false);
            lemma_has_rect(*l, w, q.0, inner, outer, false);
            lemma_has_rect(*r, w, q.1, inner, outer, false);
            lemma_rect_concat(
                left.geometries(p.0, inner, outer, false),
                right.geometries(p.1, inner, outer, false),
                w,
            );
            lemma_rect_concat(
                l.geometries(q.0, inner, outer, false),
                r.geometries(q.1, inner, outer, false),
                w,
            );
            if along(split, d) {
                let forward = d == Direction::Right || d == Direction::Down;
                if left.windows().contains(w) {
                    if forward {
                        lemma_larger_rect(*left, w, p.0, q.0, inner, outer);
                    } else {
                        lemma_larger_rect(*left, w, q.0, p.0, inner, outer);
                    }
                } else {
                    if forward {
                        lemma_larger_rect(*right, w, p.1, q.1, inner, outer);
                    } else {
                        lemma_larger_rect(*right, w, q.1, p.1, inner, outer);
                    }
                }
            } else if left.windows().contains(w) {
                lemma_resized_rect(*left, w, d, delta, p.0, inner, outer);
            } else {
                lemma_resized_rect(*right, w, d, delta, p.1, inner, outer);
            }
        }
    }
}

/// Resizing a window to the right makes it no narrower and down no lower, to the
/// left no wider and up no higher, on whichever side of the split it is and
/// whatever the gaps. Across the direction it stays as long as it is.
pub proof fn law_resize_grows_window(
    t: Tree,
    w: WindowId,
    d: Direction,
    delta: i64,
    rect: Rect,
    inner: i64,
    outer: i64,
)
    requires
        t.wf(),
        t.windows().contains(w),
        delta >= 0,
        rect.width >= 0,
        rect.height >= 0,
    ensures
        ({
            let before = rect_of(t.geometries(rect, inner, outer, true), w);
            let after = rect_of(t.resized(w, d, delta).geometries(rect, inner, outer, true), w);
            &&& before is Some && after is Some
            &&& match d {
                Direction::Right => after->0.width >= before->0.width,
                Direction::Left => after->0.width <= before->0.width,
                Direction::Down => after->0.height >= before->0.height,
                Direction::Up => after->0.height <= before->0.height,
            }
            &&& d == Direction::Left || d == Direction::Right ==> after->0.height
                == before->0.height
            &&& d == Direction::Up || d == Direction::Down ==> after->0.width == before->0.width
        }),
{
    let padded = padded_root(rect, outer, true);
    let next = t.resized(w, d, delta);
    law_resize_keeps_windows(t, w, d, delta);
    lemma_has_rect(t, w, rect, inner, outer, true);
    lemma_has_rect(next, w, rect, inner, outer, true);
    assert(t.geometries(rect, inner, outer, true) == t.geometries(padded, inner, outer, false));
    assert(next.geometries(rect, inner, outer, true) == next.geometries(
        padded,
        inner,
        outer,
        false,
    ));
    lemma_resized_rect(t, w, d, delta, padded, inner, outer);
}

// --- Even splits ---

/// Whether every split outside of stacks gives both sides the same.
pub open spec fn is_even(t: Tree) -> bool
    decreases t,
{
    match t {
        Tree::Internal { ratio, left, right, .. } => ratio == 500 && is_even(*left) && is_even(
            *right,
        ),
        _ => true,
    }
}

/// Equalizing makes every split even, whatever it was resized to before, and
/// leaves an even tree alone.
pub proof fn law_equalize_undoes_resizing(t: Tree, w: WindowId, d: Direction, delta: i64)
    ensures
        is_even(t.equalized()),
        t.resized(w, d, delta).equalized() == t.equalized(),
        is_even(t) ==> t.equalized() == t,
    decreases t,
{
    if let Tree::Internal { left, right, .. } = t {
        law_equalize_undoes_resizing(*left, w, d, delta);
        law_equalize_undoes_resizing(*right, w, d, delta);
    }
}

} // verus!
