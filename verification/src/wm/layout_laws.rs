//! What the rectangles that a tree gives its windows have in common.
use vstd::prelude::*;
use crate::wm::adjacency::ids_of;
use crate::wm::geometry::{fit, Rect, SplitDirection, RATIO_MAX, RATIO_MIN};
use crate::wm::tree::{gapped_parts, padded_root, stack_background, Tree};
use crate::wm::window::WindowId;

verus! {

broadcast use {
    vstd::multiset::group_multiset_axioms,
    vstd::seq_lib::group_to_multiset_ensures,
};

/// A rectangle with no negative side whose far edges are in range.
pub open spec fn sane(r: Rect) -> bool {
    r.width >= 0 && r.height >= 0 && r.x + r.width <= i64::MAX && r.y + r.height <= i64::MAX
}

/// Every point of `inner` lies in `outer`.
pub open spec fn within(inner: Rect, outer: Rect) -> bool {
    forall|px: int, py: int| #[trigger] inner.has_point(px, py) ==> outer.has_point(px, py)
}

/// No point lies in both.
pub open spec fn disjoint(a: Rect, b: Rect) -> bool {
    forall|px: int, py: int| !(#[trigger] a.has_point(px, py) && b.has_point(px, py))
}

pub open spec fn area(r: Rect) -> int {
    r.width * r.height
}

/// The areas of all entries together.
pub open spec fn total_area(geometries: Seq<(WindowId, Rect)>) -> int
    decreases geometries.len(),
{
    if geometries.len() == 0 {
        0
    } else {
        total_area(geometries.drop_last()) + area(geometries.last().1)
    }
}

proof fn lemma_share_bounds(length: i64, ratio: i64)
    requires
        length >= 0,
        RATIO_MIN <= ratio <= RATIO_MAX,
    ensures
        0 <= length * ratio / 1000 <= length,
        fit(length * ratio / 1000) == length * ratio / 1000,
{
    assert(0 <= length * ratio / 1000 <= length) by (nonlinear_arith)
        requires
            length >= 0,
            0 <= ratio <= 1000,
    ;
}

/// Splitting a rectangle, with or without a gap, gives parts inside it that
/// share no point.
pub proof fn law_split_parts_apart(r: Rect, split: SplitDirection, ratio: i64, gap: i64)
    requires
        sane(r),
        RATIO_MIN <= ratio <= RATIO_MAX,
    ensures
        sane(gapped_parts(r, split, ratio, gap).0),
        sane(gapped_parts(r, split, ratio, gap).1),
        within(gapped_parts(r, split, ratio, gap).0, r),
        within(gapped_parts(r, split, ratio, gap).1, r),
        disjoint(gapped_parts(r, split, ratio, gap).0, gapped_parts(r, split, ratio, gap).1),
{
    lemma_share_bounds(r.width, ratio);
    lemma_share_bounds(r.height, ratio);
}

/// Without a gap the parts of a split have the area of the whole.
pub proof fn law_split_keeps_area(r: Rect, split: SplitDirection, ratio: i64)
    requires
        sane(r),
        RATIO_MIN <= ratio <= RATIO_MAX,
    ensures
        area(r.parts(split, ratio).0) + area(r.parts(split, ratio).1) == area(r),
{
    lemma_share_bounds(r.width, ratio);
    lemma_share_bounds(r.height, ratio);
    let (a, b) = r.parts(split, ratio);
    match split {
        SplitDirection::Vertical => {
            assert(a.width * r.height + b.width * r.height == (a.width + b.width) * r.height)
                by (nonlinear_arith);
        },
        SplitDirection::Horizontal => {
            assert(r.width * a.height + r.width * b.height == r.width * (a.height + b.height))
                by (nonlinear_arith);
        },
    }
}

proof fn lemma_area_concat(a: Seq<(WindowId, Rect)>, b: Seq<(WindowId, Rect)>)
    ensures
        total_area(a + b) == total_area(a) + total_area(b),
    decreases b.len(),
{
    if b.len() == 0 {
        assert(a + b =~= a);
    } else {
        lemma_area_concat(a, b.drop_last());
        assert((a + b).drop_last() =~= a + b.drop_last());
        assert((a + b).last() == b.last());
    }
}

proof fn lemma_padded_sane(r: Rect, gap: i64, is_root: bool)
    requires
        sane(r),
    ensures
        sane(padded_root(r, gap, is_root)),
        within(padded_root(r, gap, is_root), r),
{
}

/// The windows that can take the focus fill the rectangle exactly: without
/// gaps their areas add up to its area.
pub proof fn law_tiles_fill_rect(t: Tree, rect: Rect)
    requires
        t.wf(),
        t.windows().len() > 0,
        sane(rect),
    ensures
        total_area(t.focus_geometries(rect, 0, 0, true)) == area(rect),
{
    lemma_tiles_fill(t, rect, true);
}

proof fn lemma_tiles_fill(t: Tree, rect: Rect, is_root: bool)
    requires
        t.wf(),
        t.windows().len() > 0,
        sane(rect),
    ensures
        total_area(t.focus_geometries(rect, 0, 0, is_root)) == area(rect),
    decreases t,
{
    let g = t.focus_geometries(rect, 0, 0, is_root);
    match t {
        Tree::Internal { split, ratio, left, right } => {
            law_split_parts_apart(rect, split, ratio, 0);
            law_split_keeps_area(rect, split, ratio);
            let parts = rect.parts(split, ratio);
            lemma_tiles_fill(*left, parts.0, false);
            lemma_tiles_fill(*right, parts.1, false);
            lemma_area_concat(
                left.focus_geometries(parts.0, 0, 0, false),
                right.focus_geometries(parts.1, 0, 0, false),
            );
        },
        _ => {
            assert(g.len() == 1 && g[0].1 == rect);
            assert(g.drop_last() =~= seq![]);
            assert(total_area(g.drop_last()) == 0);
        },
    }
}

/// The windows that can take the focus stay inside the rectangle and never
/// overlap, whatever the gaps.
pub proof fn law_tiles_never_overlap(
    t: Tree,
    rect: Rect,
    gap_inner: i64,
    gap_outer: i64,
    is_root: bool,
)
    requires
        t.wf(),
        sane(rect),
    ensures
        forall|i: int|
            0 <= i < t.focus_geometries(rect, gap_inner, gap_outer, is_root).len() ==> within(
                #[trigger] t.focus_geometries(rect, gap_inner, gap_outer, is_root)[i].1,
                rect,
            ),
        forall|i: int, j: int|
            0 <= i < j < t.focus_geometries(rect, gap_inner, gap_outer, is_root).len()
                ==> disjoint(
                #[trigger] t.focus_geometries(rect, gap_inner, gap_outer, is_root)[i].1,
                #[trigger] t.focus_geometries(rect, gap_inner, gap_outer, is_root)[j].1,
            ),
    decreases t,
{
    let g = t.focus_geometries(rect, gap_inner, gap_outer, is_root);
    let padded = padded_root(rect, gap_outer, is_root);
    lemma_padded_sane(rect, gap_outer, is_root);
    match t {
        Tree::Internal { split, ratio, left, right } => {
            law_split_parts_apart(padded, split, ratio, gap_inner);
            let parts = gapped_parts(padded, split, ratio, gap_inner);
            law_tiles_never_overlap(*left, parts.0, gap_inner, gap_outer, false);
            law_tiles_never_overlap(*right, parts.1, gap_inner, gap_outer, false);
            let gl = left.focus_geometries(parts.0, gap_inner, gap_outer, false);
            let gr = right.focus_geometries(parts.1, gap_inner, gap_outer, false);
            assert(g == gl + gr);
            assert forall|i: int| 0 <= i < g.len() implies within(#[trigger] g[i].1, rect) by {
                if i < gl.len() {
                    assert(g[i] == gl[i]);
                    assert(within(gl[i].1, parts.0));
                } else {
                    assert(g[i] == gr[i - gl.len()]);
                    assert(within(gr[i - gl.len()].1, parts.1));
                }
            }
            assert forall|i: int, j: int| 0 <= i < j < g.len() implies disjoint(
                #[trigger] g[i].1,
                #[trigger] g[j].1,
            ) by {
                if j < gl.len() {
                    assert(g[i] == gl[i] && g[j] == gl[j]);
                } else if i >= gl.len() {
                    assert(g[i] == gr[i - gl.len()] && g[j] == gr[j - gl.len()]);
                } else {
                    assert(g[i] == gl[i] && g[j] == gr[j - gl.len()]);
                    assert(within(gl[i].1, parts.0));
                    assert(within(gr[j - gl.len()].1, parts.1));
                }
            }
        },
        _ => {},
    }
}

/// Every window gets exactly one rectangle.
pub proof fn law_every_window_placed(
    t: Tree,
    rect: Rect,
    gap_inner: i64,
    gap_outer: i64,
    is_root: bool,
)
    requires
        t.valid(),
    ensures
        ids_of(t.geometries(rect, gap_inner, gap_outer, is_root)).to_multiset()
            == t.windows().to_multiset(),
        t.geometries(rect, gap_inner, gap_outer, is_root).len() == t.windows().len(),
    decreases t,
{
    let g = t.geometries(rect, gap_inner, gap_outer, is_root);
    let padded = padded_root(rect, gap_outer, is_root);
    match t {
        Tree::Leaf { .. } => {
            assert(ids_of(g) =~= t.windows());
        },
        Tree::Stack { windows, active, .. } => {
            let w = windows[active];
            let back = stack_background(windows, active);
            assert(ids_of(g) =~= back.push(w));
            lemma_background(windows, w);
            assert(back == windows.filter(|x: WindowId| x != w)) by {
                assert((|x: WindowId| !(0 <= active < windows.len() && x == windows[active]))
                    =~= (|x: WindowId| x != w));
            }
            assert(ids_of(g).to_multiset() =~= windows.to_multiset());
            assert(g.len() == ids_of(g).to_multiset().len());
        },
        Tree::Internal { split, ratio, left, right } => {
            crate::wm::tree_laws::lemma_valid_sides(t);
            let parts = gapped_parts(padded, split, ratio, gap_inner);
            law_every_window_placed(*left, parts.0, gap_inner, gap_outer, false);
            law_every_window_placed(*right, parts.1, gap_inner, gap_outer, false);
            let gl = left.geometries(parts.0, gap_inner, gap_outer, false);
            let gr = right.geometries(parts.1, gap_inner, gap_outer, false);
            assert(ids_of(g) =~= ids_of(gl) + ids_of(gr));
            vstd::seq_lib::lemma_multiset_commutative(ids_of(gl), ids_of(gr));
            vstd::seq_lib::lemma_multiset_commutative(left.windows(), right.windows());
        },
    }
}

/// A stack without its active window and that window are the whole stack.
proof fn lemma_background(windows: Seq<WindowId>, w: WindowId)
    requires
        windows.no_duplicates(),
        windows.contains(w),
    ensures
        windows.filter(|x: WindowId| x != w).push(w).to_multiset() == windows.to_multiset(),
    decreases windows.len(),
{
    let keep = |x: WindowId| x != w;
    let rest = windows.drop_last();
    let last = windows.last();
    reveal(Seq::filter);
    assert(windows =~= rest.push(last));
    if last == w {
        assert(!rest.contains(w)) by {
            if rest.contains(w) {
                let i = choose|i: int| 0 <= i < rest.len() && rest[i] == w;
                assert(windows[i] == windows[windows.len() - 1]);
            }
        }
        lemma_filter_all(rest, w);
    } else {
        assert(rest.contains(w)) by {
            let i = choose|i: int| 0 <= i < windows.len() && windows[i] == w;
            assert(rest[i] == w);
        }
        lemma_background(rest, w);
        assert(windows.filter(keep) == rest.filter(keep).push(last));
        assert(windows.filter(keep).push(w).to_multiset() =~= windows.to_multiset());
    }
}

proof fn lemma_filter_all(s: Seq<WindowId>, w: WindowId)
    requires
        !s.contains(w),
    ensures
        s.filter(|x: WindowId| x != w) == s,
    decreases s.len(),
{
    reveal(Seq::filter);
    if s.len() > 0 {
        assert(s.last() != w);
        assert(!s.drop_last().contains(w)) by {
            if s.drop_last().contains(w) {
                let i = choose|i: int| 0 <= i < s.drop_last().len() && s.drop_last()[i] == w;
                assert(s[i] == w);
            }
        }
        lemma_filter_all(s.drop_last(), w);
        assert(s =~= s.drop_last().push(s.last()));
    } else {
        assert(s.filter(|x: WindowId| x != w) =~= s);
    }
}

} // verus!
