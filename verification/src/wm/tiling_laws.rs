//! What splits, gaps and resizing mean for the rectangles of windows.
use vstd::prelude::*;
use crate::wm::geometry::{Rect, SplitDirection, RATIO_MAX, RATIO_MIN};
use crate::wm::layout_laws::sane;
use crate::wm::tree::{gapped_parts, padded_root, Tree};
use crate::wm::window::WindowId;

verus! {

proof fn lemma_share(length: int, ratio: int)
    requires
        length >= 0,
        0 <= ratio <= 1000,
    ensures
        0 <= length * ratio / 1000 <= length,
        1000 * (length * ratio / 1000) <= length * ratio < 1000 * (length * ratio / 1000) + 1000,
{
    assert(0 <= length * ratio <= length * 1000) by (nonlinear_arith)
        requires
            length >= 0,
            0 <= ratio <= 1000,
    ;
}

// --- Splits ---

/// A vertical split puts its parts side by side and a horizontal one puts them
/// one above the other. The gap stays free between them, half of it on either
/// side of the line that divides the length by the ratio, and everywhere else
/// the parts reach the edges of the rectangle.
pub proof fn law_split_leaves_gap(r: Rect, split: SplitDirection, ratio: i64, gap: i64)
    requires
        sane(r),
        RATIO_MIN <= ratio <= RATIO_MAX,
        gap >= 0,
        ({
            let length = match split {
                SplitDirection::Vertical => r.width,
                SplitDirection::Horizontal => r.height,
            };
            gap / 2 <= length * ratio / 1000 <= length - gap / 2
        }),
    ensures
        ({
            let (first, second) = gapped_parts(r, split, ratio, gap);
            match split {
                SplitDirection::Vertical => {
                    &&& second.x == first.x + first.width + 2 * (gap / 2)
                    &&& first.x == r.x
                    &&& second.x + second.width == r.x + r.width
                    &&& first.y == r.y && second.y == r.y
                    &&& first.height == r.height && second.height == r.height
                    &&& first.width >= 0 && second.width >= 0
                    &&& 1000 * (first.width + gap / 2) <= r.width * ratio < 1000 * (first.width
                        + gap / 2 + 1)
                },
                SplitDirection::Horizontal => {
                    &&& second.y == first.y + first.height + 2 * (gap / 2)
                    &&& first.y == r.y
                    &&& second.y + second.height == r.y + r.height
                    &&& first.x == r.x && second.x == r.x
                    &&& first.width == r.width && second.width == r.width
                    &&& first.height >= 0 && second.height >= 0
                    &&& 1000 * (first.height + gap / 2) <= r.height * ratio < 1000 * (first.height
                        + gap / 2 + 1)
                },
            }
        }),
{
    lemma_share(r.width as int, ratio as int);
    lemma_share(r.height as int, ratio as int);
}

/// What lies between the edges of a rectangle.
pub open spec fn lies_in(inner: Rect, outer: Rect) -> bool {
    &&& outer.x <= inner.x
    &&& inner.x + inner.width <= outer.x + outer.width
    &&& outer.y <= inner.y
    &&& inner.y + inner.height <= outer.y + outer.height
}

/// Parts of a split that are not empty keep the whole gap between them, and
/// all parts have a place in the rectangle.
proof fn lemma_parts(r: Rect, split: SplitDirection, ratio: i64, gap: i64)
    requires
        sane(r),
        RATIO_MIN <= ratio <= RATIO_MAX,
        gap >= 0,
    ensures
        ({
            let (first, second) = gapped_parts(r, split, ratio, gap);
            &&& sane(first) && sane(second)
            &&& first.width > 0 && first.height > 0 ==> lies_in(first, r)
            &&& second.width > 0 && second.height > 0 ==> lies_in(second, r)
            &&& first.width > 0 && first.height > 0 && second.width > 0 && second.height > 0 ==> {
                match split {
                    SplitDirection::Vertical => second.x == first.x + first.width + 2 * (gap / 2),
                    SplitDirection::Horizontal => second.y == first.y + first.height + 2 * (gap
                        / 2),
                }
            }
        }),
{
    lemma_share(r.width as int, ratio as int);
    lemma_share(r.height as int, ratio as int);
}

// --- Tiles ---

/// A window with an extent.
pub open spec fn is_open(r: Rect) -> bool {
    r.width > 0 && r.height > 0
}

proof fn lemma_tiles_in(t: Tree, rect: Rect, gap: i64, outer: i64)
    requires
        t.wf(),
        sane(rect),
        gap >= 0,
    ensures
        forall|i: int|
            0 <= i < t.focus_geometries(rect, gap, outer, false).len() && is_open(
                #[trigger] t.focus_geometries(rect, gap, outer, false)[i].1,
            ) ==> lies_in(t.focus_geometries(rect, gap, outer, false)[i].1, rect) && is_open(rect),
    decreases t,
{
    let g = t.focus_geometries(rect, gap, outer, false);
    if let Tree::Internal { split, ratio, left, right } = t {
        let parts = gapped_parts(rect, split, ratio, gap);
        lemma_parts(rect, split, ratio, gap);
        lemma_tiles_in(*left, parts.0, gap, outer);
        lemma_tiles_in(*right, parts.1, gap, outer);
        let gl = left.focus_geometries(parts.0, gap, outer, false);
        let gr = right.focus_geometries(parts.1, gap, outer, false);
        assert forall|i: int| 0 <= i < g.len() && is_open(#[trigger] g[i].1) implies lies_in(
            g[i].1,
            rect,
        ) && is_open(rect) by {
            if i < gl.len() {
                assert(g[i] == gl[i]);
            } else {
                assert(g[i] == gr[i - gl.len()]);
            }
        }
    }
}

/// Any two tiles are at least the inner gap apart, from left to right or from
/// top to bottom, in the order in which they are listed.
pub proof fn law_tiles_keep_their_distance(t: Tree, rect: Rect, gap: i64, outer: i64)
    requires
        t.wf(),
        sane(rect),
        gap >= 0,
    ensures
        ({
            let g = t.focus_geometries(rect, gap, outer, true);
            forall|i: int, j: int|
                #![trigger g[i], g[j]]
                0 <= i < j < g.len() && is_open(g[i].1) && is_open(g[j].1) ==> {
                    ||| g[i].1.x + g[i].1.width + 2 * (gap / 2) <= g[j].1.x
                    ||| g[i].1.y + g[i].1.height + 2 * (gap / 2) <= g[j].1.y
                }
        }),
{
    let padded = padded_root(rect, outer, true);
    assert(sane(padded));
    lemma_outer_once(t, rect, gap, outer);
    lemma_distance(t, padded, gap, outer);
}

proof fn lemma_distance(t: Tree, rect: Rect, gap: i64, outer: i64)
    requires
        t.wf(),
        sane(rect),
        gap >= 0,
    ensures
        ({
            let g = t.focus_geometries(rect, gap, outer, false);
            forall|i: int, j: int|
                #![trigger g[i], g[j]]
                0 <= i < j < g.len() && is_open(g[i].1) && is_open(g[j].1) ==> {
                    ||| g[i].1.x + g[i].1.width + 2 * (gap / 2) <= g[j].1.x
                    ||| g[i].1.y + g[i].1.height + 2 * (gap / 2) <= g[j].1.y
                }
        }),
    decreases t,
{
    let g = t.focus_geometries(rect, gap, outer, false);
    if let Tree::Internal { split, ratio, left, right } = t {
        let parts = gapped_parts(rect, split, ratio, gap);
        lemma_parts(rect, split, ratio, gap);
        lemma_tiles_in(*left, parts.0, gap, outer);
        lemma_tiles_in(*right, parts.1, gap, outer);
        lemma_distance(*left, parts.0, gap, outer);
        lemma_distance(*right, parts.1, gap, outer);
        let gl = left.focus_geometries(parts.0, gap, outer, false);
        let gr = right.focus_geometries(parts.1, gap, outer, false);
        assert(g == gl + gr);
        assert forall|i: int, j: int|
            #![trigger g[i], g[j]]
            0 <= i < j < g.len() && is_open(g[i].1) && is_open(g[j].1) implies {
            ||| g[i].1.x + g[i].1.width + 2 * (gap / 2) <= g[j].1.x
            ||| g[i].1.y + g[i].1.height + 2 * (gap / 2) <= g[j].1.y
        } by {
            if j < gl.len() {
                assert(g[i] == gl[i] && g[j] == gl[j]);
            } else if i >= gl.len() {
                assert(g[i] == gr[i - gl.len()] && g[j] == gr[j - gl.len()]);
            } else {
                assert(g[i] == gl[i] && g[j] == gr[j - gl.len()]);
                assert(lies_in(gl[i].1, parts.0));
                assert(lies_in(gr[j - gl.len()].1, parts.1));
            }
        }
    }
}

// --- The outer gap ---

/// The outer gap stays free along all four edges, once and whatever the tree:
/// with it, windows lie as they do without it in a rectangle that is smaller by
/// the gap on each side.
pub proof fn law_outer_gap_surrounds_tiles(t: Tree, rect: Rect, inner: i64, outer: i64)
    requires
        sane(rect),
        outer >= 0,
        2 * outer <= rect.width,
        2 * outer <= rect.height,
    ensures
        ({
            let less = Rect {
                x: (rect.x + outer) as i64,
                y: (rect.y + outer) as i64,
                width: (rect.width - 2 * outer) as i64,
                height: (rect.height - 2 * outer) as i64,
            };
            &&& t.geometries(rect, inner, outer, true) == t.geometries(less, inner, 0, true)
            &&& t.focus_geometries(rect, inner, outer, true) == t.focus_geometries(
                less,
                inner,
                0,
                true,
            )
        }),
{
    let padded = padded_root(rect, outer, true);
    lemma_outer_once(t, rect, inner, outer);
    lemma_outer_once(t, padded, inner, 0);
    lemma_inside_no_outer(t, padded, inner, outer, 0);
}

/// The root alone takes the outer gap off.
proof fn lemma_outer_once(t: Tree, rect: Rect, inner: i64, outer: i64)
    ensures
        t.geometries(rect, inner, outer, true) == t.geometries(
            padded_root(rect, outer, true),
            inner,
            outer,
            false,
        ),
        t.focus_geometries(rect, inner, outer, true) == t.focus_geometries(
            padded_root(rect, outer, true),
            inner,
            outer,
            false,
        ),
{
}

proof fn lemma_inside_no_outer(t: Tree, rect: Rect, inner: i64, a: i64, b: i64)
    ensures
        t.geometries(rect, inner, a, false) == t.geometries(rect, inner, b, false),
        t.focus_geometries(rect, inner, a, false) == t.focus_geometries(rect, inner, b, false),
    decreases t,
{
    if let Tree::Internal { split, ratio, left, right } = t {
        let parts = gapped_parts(rect, split, ratio, inner);
        lemma_inside_no_outer(*left, parts.0, inner, a, b);
        lemma_inside_no_outer(*right, parts.1, inner, a, b);
    }
}

/// A window alone fills the rectangle.
pub proof fn law_single_window_fills_rect(w: WindowId, rect: Rect, inner: i64)
    ensures
        Tree::leaf(w).geometries(rect, inner, 0, true) == seq![(w, rect)],
        Tree::leaf(w).focus_geometries(rect, inner, 0, true) == seq![(w, rect)],
{
}

/// The sides of a split are laid out one after the other, each as if it were
/// alone in its part.
pub proof fn law_sides_are_laid_out_in_their_parts(
    split: SplitDirection,
    ratio: i64,
    left: Tree,
    right: Tree,
    rect: Rect,
    inner: i64,
)
    ensures
        ({
            let t = Tree::Internal {
                split,
                ratio,
                left: Box::new(left),
                right: Box::new(right),
            };
            let (first, second) = gapped_parts(rect, split, ratio, inner);
            &&& t.geometries(rect, inner, 0, true) == left.geometries(first, inner, 0, true)
                + right.geometries(second, inner, 0, true)
            &&& t.focus_geometries(rect, inner, 0, true) == left.focus_geometries(
                first,
                inner,
                0,
                true,
            ) + right.focus_geometries(second, inner, 0, true)
        }),
{
    let (first, second) = gapped_parts(rect, split, ratio, inner);
    lemma_outer_once(left, first, inner, 0);
    lemma_outer_once(right, second, inner, 0);
}

// --- Stacks ---

/// The active window of a stack has the whole rectangle and is listed last, on
/// top. The others have its size and lie one behind the other, each four points
/// further down and four points further to the same side: to the left where more
/// of them precede the active window than follow it, else to the right.
pub proof fn law_stack_is_fanned(
    windows: Seq<WindowId>,
    active: int,
    previous: Tree,
    rect: Rect,
    inner: i64,
    k: int,
)
    requires
        0 <= active < windows.len(),
        windows.no_duplicates(),
        0 <= k < windows.len(),
        -1_000_000_000_000 < rect.x < 1_000_000_000_000,
        -1_000_000_000_000 < rect.y < 1_000_000_000_000,
        windows.len() < 1_000_000,
    ensures
        ({
            let t = Tree::Stack { windows, active, previous: Box::new(previous) };
            let g = t.geometries(rect, inner, 0, true);
            let side: int = if active > windows.len() - 1 - active {
                -1
            } else {
                1
            };
            &&& g.len() == windows.len()
            &&& g[g.len() - 1] == (windows[active], rect)
            &&& k < g.len() - 1 ==> {
                &&& g[k].0 == (if k < active {
                    windows[k]
                } else {
                    windows[k + 1]
                })
                &&& g[k].1.x == rect.x + side * 4000 * (k + 1)
                &&& g[k].1.y == rect.y + 4000 * (k + 1)
                &&& g[k].1.width == rect.width
                &&& g[k].1.height == rect.height
            }
            &&& t.focus_geometries(rect, inner, 0, true) == seq![(windows[active], rect)]
        }),
{
    let keep = |w: WindowId| !(0 <= active < windows.len() && w == windows[active]);
    lemma_all_but_one(windows, active, keep);
    let back = windows.filter(keep);
    assert(back == crate::wm::tree::stack_background(windows, active));
    assert(back =~= windows.remove(active));
    let t = Tree::Stack { windows, active, previous: Box::new(previous) };
    let g = t.geometries(rect, inner, 0, true);
    assert(padded_root(rect, 0, true) == rect);
    assert(g == crate::wm::tree::stack_geometries(windows, active, rect));
    let sign = crate::wm::tree::reveal_sign(windows.len() as int, active);
    if k < g.len() - 1 {
        assert(g[k] == (back[k], crate::wm::tree::revealed(rect, sign, k + 1)));
        if sign == -1 {
            assert(sign * 4000 * (k + 1) == -4000 * (k + 1)) by (nonlinear_arith)
                requires
                    sign == -1,
            ;
        } else {
            assert(sign * 4000 * (k + 1) == 4000 * (k + 1)) by (nonlinear_arith)
                requires
                    sign == 1,
            ;
        }
    }
}

proof fn lemma_all_but_one(s: Seq<WindowId>, at: int, keep: spec_fn(WindowId) -> bool)
    requires
        0 <= at < s.len(),
        forall|i: int| 0 <= i < s.len() && i != at ==> keep(#[trigger] s[i]),
        !keep(s[at]),
    ensures
        s.filter(keep) == s.remove(at),
    decreases s.len(),
{
    reveal(Seq::filter);
    let rest = s.drop_last();
    if at == s.len() - 1 {
        assert forall|i: int| 0 <= i < rest.len() implies keep(#[trigger] rest[i]) by {
            assert(rest[i] == s[i]);
        }
        lemma_all(rest, keep);
        assert(s.remove(at) =~= rest);
    } else {
        assert forall|i: int| 0 <= i < rest.len() && i != at implies keep(#[trigger] rest[i]) by {
            assert(rest[i] == s[i]);
        }
        assert(rest[at] == s[at]);
        lemma_all_but_one(rest, at, keep);
        assert(keep(s[s.len() - 1]));
        assert(s.remove(at) =~= rest.remove(at).push(s.last()));
    }
}

proof fn lemma_all(s: Seq<WindowId>, keep: spec_fn(WindowId) -> bool)
    requires
        forall|i: int| 0 <= i < s.len() ==> keep(#[trigger] s[i]),
    ensures
        s.filter(keep) == s,
    decreases s.len(),
{
    reveal(Seq::filter);
    if s.len() > 0 {
        let rest = s.drop_last();
        assert forall|i: int| 0 <= i < rest.len() implies keep(#[trigger] rest[i]) by {
            assert(rest[i] == s[i]);
        }
        lemma_all(rest, keep);
        assert(keep(s[s.len() - 1]));
        assert(s =~= rest.push(s.last()));
    } else {
        assert(s.filter(keep) =~= s);
    }
}

/// The windows over which the focus moves are shown where the focus finds them.
pub proof fn law_focus_finds_windows_where_they_are(
    t: Tree,
    rect: Rect,
    inner: i64,
    outer: i64,
    root: bool,
)
    requires
        t.wf(),
    ensures
        forall|i: int|
            0 <= i < t.focus_geometries(rect, inner, outer, root).len() ==> t.geometries(
                rect,
                inner,
                outer,
                root,
            ).contains(#[trigger] t.focus_geometries(rect, inner, outer, root)[i]),
    decreases t,
{
    let f = t.focus_geometries(rect, inner, outer, root);
    let g = t.geometries(rect, inner, outer, root);
    let padded = padded_root(rect, outer, root);
    match t {
        Tree::Leaf { .. } => {
            assert forall|i: int| 0 <= i < f.len() implies g.contains(#[trigger] f[i]) by {
                assert(g[i] == f[i]);
            }
        },
        Tree::Stack { windows, active, .. } => {
            assert(g[g.len() - 1] == (windows[active], padded));
            assert forall|i: int| 0 <= i < f.len() implies g.contains(#[trigger] f[i]) by {
                assert(g[g.len() - 1] == f[i]);
            }
        },
        Tree::Internal { split, ratio, left, right } => {
            let parts = gapped_parts(padded, split, ratio, inner);
            law_focus_finds_windows_where_they_are(*left, parts.0, inner, outer, false);
            law_focus_finds_windows_where_they_are(*right, parts.1, inner, outer, false);
            let fl = left.focus_geometries(parts.0, inner, outer, false);
            let fr = right.focus_geometries(parts.1, inner, outer, false);
            let gl = left.geometries(parts.0, inner, outer, false);
            let gr = right.geometries(parts.1, inner, outer, false);
            assert forall|i: int| 0 <= i < f.len() implies g.contains(#[trigger] f[i]) by {
                if i < fl.len() {
                    assert(f[i] == fl[i]);
                    let k = choose|k: int| 0 <= k < gl.len() && gl[k] == fl[i];
                    assert(g[k] == f[i]);
                } else {
                    assert(f[i] == fr[i - fl.len()]);
                    let k = choose|k: int| 0 <= k < gr.len() && gr[k] == fr[i - fl.len()];
                    assert(g[gl.len() + k] == f[i]);
                }
            }
        },
    }
}

} // verus!
