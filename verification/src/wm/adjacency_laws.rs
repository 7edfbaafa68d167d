//! Laws of finding neighbours: who they are, and in which order.
use vstd::prelude::*;
use crate::seqs::{is_first_index, lemma_position, lemma_position_exists, position};
use crate::wm::adjacency::{
    entries_in_direction, focus_distance, ids_of, is_entry_in_direction, lemma_rank_slot,
    lemma_ranked, lies_in_direction, neighbours, rank_slot, ranked, rect_of,
};
use crate::wm::geometry::{Direction, Rect};
use crate::wm::window::WindowId;

verus! {

broadcast use vstd::seq_lib::group_to_multiset_ensures;

/// A neighbour is another window of the list, and its centre lies in the
/// direction asked for.
pub proof fn law_neighbours_lie_in_direction(
    geometries: Seq<(WindowId, Rect)>,
    from: WindowId,
    direction: Direction,
    k: int,
)
    requires
        0 <= k < neighbours(geometries, from, direction).len(),
    ensures
        neighbours(geometries, from, direction)[k] != from,
        exists|i: int|
            0 <= i < geometries.len() && (#[trigger] geometries[i]).0 == neighbours(
                geometries,
                from,
                direction,
            )[k] && lies_in_direction(rect_of(geometries, from)->0, geometries[i].1, direction),
{
    let from_rect = rect_of(geometries, from)->0;
    let entries = entries_in_direction(geometries, from, from_rect, direction);
    let list = ranked(entries, from_rect, direction);
    lemma_ranked(entries, from_rect, direction);
    let e = list[k];
    assert(list.contains(e));
    assert(list.to_multiset().count(e) > 0);
    assert(entries.contains(e));
    let pred = is_entry_in_direction(from, from_rect, direction);
    let j = choose|j: int| 0 <= j < entries.len() && entries[j] == e;
    geometries.lemma_filter_pred(pred, j);
    geometries.lemma_filter_contains_rev(pred, e);
    assert(geometries.contains(e));
    let i = choose|i: int| 0 <= i < geometries.len() && geometries[i] == e;
    assert(geometries[i].0 == neighbours(geometries, from, direction)[k]);
}

/// Entries at the same distance keep their order in a ranking.
proof fn lemma_ranked_stable(entries: Seq<(WindowId, Rect)>, from_rect: Rect, direction: Direction)
    requires
        entries.no_duplicates(),
    ensures
        ({
            let list = ranked(entries, from_rect, direction);
            forall|i: int, j: int|
                #![trigger list[i], list[j]]
                0 <= i < j < list.len() && focus_distance(from_rect, list[i].1, direction)
                    == focus_distance(from_rect, list[j].1, direction) ==> position(
                    entries,
                    list[i],
                )->0 < position(entries, list[j])->0
        }),
    decreases entries.len(),
{
    if entries.len() > 0 {
        let rest = entries.drop_last();
        let x = entries.last();
        let last = entries.len() - 1;
        let before = ranked(rest, from_rect, direction);
        let list = ranked(entries, from_rect, direction);
        let d = focus_distance(from_rect, x.1, direction);
        let at = rank_slot(before, from_rect, direction, d);
        assert(rest.no_duplicates());
        lemma_ranked_stable(rest, from_rect, direction);
        lemma_ranked(rest, from_rect, direction);
        lemma_rank_slot(before, from_rect, direction, d);
        assert(list == before.insert(at, x));
        assert(is_first_index(entries, x, last)) by {
            assert(entries[last] == x);
        }
        lemma_position(entries, x, last);
        assert forall|k: int| 0 <= k < before.len() implies position(entries, #[trigger] before[k])
            == position(rest, before[k]) && position(rest, before[k])->0 < last by {
            let e = before[k];
            assert(before.contains(e));
            assert(before.to_multiset().count(e) > 0);
            assert(rest.contains(e));
            lemma_position_exists(rest, e);
            let p = position(rest, e)->0;
            assert forall|q: int| 0 <= q < p implies entries[q] != e by {
                assert(rest[q] != e);
            }
            assert(is_first_index(entries, e, p));
            lemma_position(entries, e, p);
        }
        assert forall|i: int, j: int|
            #![trigger list[i], list[j]]
            0 <= i < j < list.len() && focus_distance(from_rect, list[i].1, direction)
                == focus_distance(from_rect, list[j].1, direction) implies position(
            entries,
            list[i],
        )->0 < position(entries, list[j])->0 by {
            let pi = if i < at { i } else { i - 1 };
            let pj = if j < at { j } else { j - 1 };
            if i != at {
                assert(list[i] == before[pi]);
            }
            if j != at {
                assert(list[j] == before[pj]);
            }
            if i == at {
                assert(focus_distance(from_rect, before[pj].1, direction) > d);
            }
        }
    }
}

/// What is filtered keeps its order.
proof fn lemma_filter_keeps_order(
    s: Seq<(WindowId, Rect)>,
    p: spec_fn((WindowId, Rect)) -> bool,
    a: (WindowId, Rect),
    b: (WindowId, Rect),
)
    requires
        s.no_duplicates(),
        s.filter(p).contains(a),
        s.filter(p).contains(b),
        position(s.filter(p), a)->0 < position(s.filter(p), b)->0,
    ensures
        s.filter(p).no_duplicates(),
        position(s, a)->0 < position(s, b)->0,
    decreases s.len(),
{
    reveal(Seq::filter);
    let f = s.filter(p);
    let rest = s.drop_last();
    let g = rest.filter(p);
    let x = s.last();
    lemma_filter_distinct(s, p);
    lemma_position_exists(f, a);
    lemma_position_exists(f, b);
    let fa = position(f, a)->0;
    let fb = position(f, b)->0;
    assert(rest.no_duplicates());
    if p(x) {
        assert(f == g.push(x));
        assert(g[fa] == a);
        assert(is_first_index(g, a, fa)) by {
            assert forall|k: int| 0 <= k < fa implies g[k] != a by {
                assert(f[k] != a);
            }
        }
        lemma_position(g, a, fa);
        lemma_in_front(rest, x, p, a);
        if fb == g.len() {
            let last = s.len() - 1;
            assert(is_first_index(s, x, last));
            lemma_position(s, x, last);
        } else {
            assert(g[fb] == b);
            assert(is_first_index(g, b, fb)) by {
                assert forall|k: int| 0 <= k < fb implies g[k] != b by {
                    assert(f[k] != b);
                }
            }
            lemma_position(g, b, fb);
            lemma_filter_keeps_order(rest, p, a, b);
            lemma_in_front(rest, x, p, b);
        }
    } else {
        assert(f == g);
        lemma_filter_keeps_order(rest, p, a, b);
        lemma_in_front(rest, x, p, a);
        lemma_in_front(rest, x, p, b);
    }
    assert(rest.push(x) =~= s);
}

/// A filtered entry stands where it stood before one more was added.
proof fn lemma_in_front(
    rest: Seq<(WindowId, Rect)>,
    x: (WindowId, Rect),
    p: spec_fn((WindowId, Rect)) -> bool,
    e: (WindowId, Rect),
)
    requires
        rest.filter(p).contains(e),
    ensures
        position(rest.push(x), e) == position(rest, e),
        position(rest, e)->0 < rest.len(),
{
    rest.lemma_filter_contains_rev(p, e);
    lemma_position_exists(rest, e);
    let k = position(rest, e)->0;
    assert(is_first_index(rest.push(x), e, k)) by {
        assert(rest.push(x)[k] == e);
        assert forall|q: int| 0 <= q < k implies rest.push(x)[q] != e by {
            assert(rest[q] != e);
        }
    }
    lemma_position(rest.push(x), e, k);
}

proof fn lemma_filter_distinct(
    s: Seq<(WindowId, Rect)>,
    p: spec_fn((WindowId, Rect)) -> bool,
)
    requires
        s.no_duplicates(),
    ensures
        s.filter(p).no_duplicates(),
    decreases s.len(),
{
    reveal(Seq::filter);
    if s.len() > 0 {
        let rest = s.drop_last();
        lemma_filter_distinct(rest, p);
        let g = rest.filter(p);
        if p(s.last()) {
            assert forall|i: int| 0 <= i < g.len() implies g[i] != s.last() by {
                assert(g.contains(g[i]));
                rest.lemma_filter_contains_rev(p, g[i]);
                let k = choose|k: int| 0 <= k < rest.len() && rest[k] == g[i];
                assert(s[k] == g[i]);
            }
        }
    }
}

/// Where a list has the entry of a window.
pub open spec fn place_of(geometries: Seq<(WindowId, Rect)>, w: WindowId) -> int {
    position(ids_of(geometries), w)->0
}

/// The neighbours of a window are, once each, the other windows whose centres
/// lie in the direction asked for. They are ordered by their distance, and those
/// at the same distance by their places in the list.
pub proof fn law_neighbours_are_ranked(
    geometries: Seq<(WindowId, Rect)>,
    from: WindowId,
    direction: Direction,
)
    requires
        ids_of(geometries).no_duplicates(),
        ids_of(geometries).contains(from),
    ensures
        ({
            let from_rect = geometries[place_of(geometries, from)].1;
            let list = neighbours(geometries, from, direction);
            &&& list.no_duplicates()
            &&& forall|w: WindowId| #[trigger]
                list.contains(w) <==> ids_of(geometries).contains(w) && w != from
                    && lies_in_direction(
                    from_rect,
                    geometries[place_of(geometries, w)].1,
                    direction,
                )
            &&& forall|i: int, j: int|
                #![trigger list[i], list[j]]
                0 <= i < j < list.len() ==> {
                    let a = focus_distance(
                        from_rect,
                        geometries[place_of(geometries, list[i])].1,
                        direction,
                    );
                    let b = focus_distance(
                        from_rect,
                        geometries[place_of(geometries, list[j])].1,
                        direction,
                    );
                    a < b || (a == b && place_of(geometries, list[i]) < place_of(
                        geometries,
                        list[j],
                    ))
                }
        }),
{
    let ids = ids_of(geometries);
    assert forall|i: int, j: int| 0 <= i < j < geometries.len() implies geometries[i]
        != geometries[j] by {
        assert(ids[i] != ids[j]);
    }
    assert(geometries.no_duplicates());
    assert forall|k: int| 0 <= k < geometries.len() implies place_of(
        geometries,
        (#[trigger] geometries[k]).0,
    ) == k && position(geometries, geometries[k]) == Some(k) by {
        assert(ids[k] == geometries[k].0);
        assert(is_first_index(ids, geometries[k].0, k));
        lemma_position(ids, geometries[k].0, k);
        assert(is_first_index(geometries, geometries[k], k));
        lemma_position(geometries, geometries[k], k);
    }
    lemma_position_exists(ids, from);
    let at = place_of(geometries, from);
    let from_rect = geometries[at].1;
    lemma_rect_of(geometries, at);
    let p = is_entry_in_direction(from, from_rect, direction);
    let entries = entries_in_direction(geometries, from, from_rect, direction);
    let ranking = ranked(entries, from_rect, direction);
    let list = neighbours(geometries, from, direction);
    lemma_filter_distinct(geometries, p);
    lemma_ranked(entries, from_rect, direction);
    lemma_ranked_stable(entries, from_rect, direction);
    assert(list == ids_of(ranking));
    assert forall|k: int| 0 <= k < ranking.len() implies entries.contains(#[trigger] ranking[k])
        && geometries.contains(ranking[k]) && p(ranking[k]) && geometries[place_of(
        geometries,
        list[k],
    )] == ranking[k] by {
        let e = ranking[k];
        assert(ranking.contains(e));
        assert(ranking.to_multiset().count(e) > 0);
        assert(entries.contains(e));
        let n = choose|n: int| 0 <= n < entries.len() && entries[n] == e;
        geometries.lemma_filter_pred(p, n);
        geometries.lemma_filter_contains_rev(p, e);
        let g = choose|g: int| 0 <= g < geometries.len() && geometries[g] == e;
        assert(place_of(geometries, geometries[g].0) == g);
    }
    assert forall|i: int, j: int| #![trigger list[i], list[j]] 0 <= i < j < list.len() implies {
        let a = focus_distance(from_rect, geometries[place_of(geometries, list[i])].1, direction);
        let b = focus_distance(from_rect, geometries[place_of(geometries, list[j])].1, direction);
        a < b || (a == b && place_of(geometries, list[i]) < place_of(geometries, list[j]))
    } by {
        let x = ranking[i];
        let y = ranking[j];
        assert(entries.contains(x) && entries.contains(y));
        if focus_distance(from_rect, x.1, direction) == focus_distance(from_rect, y.1, direction) {
            lemma_filter_keeps_order(geometries, p, x, y);
            let gx = choose|g: int| 0 <= g < geometries.len() && geometries[g] == x;
            let gy = choose|g: int| 0 <= g < geometries.len() && geometries[g] == y;
            assert(position(geometries, geometries[gx]) == Some(gx));
            assert(position(geometries, geometries[gy]) == Some(gy));
        }
    }
    assert(list.no_duplicates()) by {
        assert forall|i: int, j: int| 0 <= i < j < list.len() implies list[i] != list[j] by {
            let a = focus_distance(
                from_rect,
                geometries[place_of(geometries, list[i])].1,
                direction,
            );
        }
    }
    assert forall|w: WindowId| #[trigger] list.contains(w) <==> ids.contains(w) && w != from
        && lies_in_direction(from_rect, geometries[place_of(geometries, w)].1, direction) by {
        if list.contains(w) {
            let k = choose|k: int| 0 <= k < list.len() && list[k] == w;
            assert(p(ranking[k]));
            let g = choose|g: int| 0 <= g < geometries.len() && geometries[g] == ranking[k];
            assert(ids[g] == w);
        }
        if ids.contains(w) && w != from && lies_in_direction(
            from_rect,
            geometries[place_of(geometries, w)].1,
            direction,
        ) {
            lemma_position_exists(ids, w);
            let g = place_of(geometries, w);
            let e = geometries[g];
            assert(ids[g] == w);
            assert(geometries.contains(e));
            geometries.lemma_filter_contains(p, g);
            assert(entries.contains(e));
            assert(entries.to_multiset().count(e) > 0);
            assert(ranking.contains(e));
            let k = choose|k: int| 0 <= k < ranking.len() && ranking[k] == e;
            assert(list[k] == w);
        }
    }
}

/// The rectangle of a window is that of its first entry.
proof fn lemma_rect_of(geometries: Seq<(WindowId, Rect)>, at: int)
    requires
        is_first_index(ids_of(geometries), geometries[at].0, at),
    ensures
        rect_of(geometries, geometries[at].0) == Some(geometries[at].1),
    decreases geometries.len(),
{
    let w = geometries[at].0;
    let ids = ids_of(geometries);
    if at > 0 {
        assert(ids[0] != w);
        let rest = geometries.drop_first();
        assert(rest[at - 1] == geometries[at]);
        assert(is_first_index(ids_of(rest), w, at - 1)) by {
            assert forall|k: int| 0 <= k < at - 1 implies ids_of(rest)[k] != w by {
                assert(ids[k + 1] != w);
            }
        }
        lemma_rect_of(rest, at - 1);
    }
}

// --- Directions and distances ---

/// A window lies in a direction if its middle does: to the left of the other one's middle,
/// to the right of it, above it or below it.
pub proof fn law_direction_goes_by_middles(from: Rect, to: Rect)
    ensures
        lies_in_direction(from, to, Direction::Left) <==> 2 * to.x + to.width < 2 * from.x
            + from.width,
        lies_in_direction(from, to, Direction::Right) <==> 2 * to.x + to.width > 2 * from.x
            + from.width,
        lies_in_direction(from, to, Direction::Up) <==> 2 * to.y + to.height < 2 * from.y
            + from.height,
        lies_in_direction(from, to, Direction::Down) <==> 2 * to.y + to.height > 2 * from.y
            + from.height,
{
}

/// Distances are the same in all directions: turning left to right, top to bottom, or
/// across for down turns the distances with the windows.
pub proof fn law_distance_is_alike_in_all_directions(
    from: Rect,
    to: Rect,
    left_from: Rect,
    left_to: Rect,
    down_from: Rect,
    down_to: Rect,
    up_from: Rect,
    up_to: Rect,
)
    requires
        left_from.x == -(from.x + from.width) && left_from.y == from.y && left_from.width
            == from.width && left_from.height == from.height,
        left_to.x == -(to.x + to.width) && left_to.y == to.y && left_to.width == to.width
            && left_to.height == to.height,
        down_from.x == from.y && down_from.y == from.x && down_from.width == from.height
            && down_from.height == from.width,
        down_to.x == to.y && down_to.y == to.x && down_to.width == to.height && down_to.height
            == to.width,
        up_from.x == left_from.y && up_from.y == left_from.x && up_from.width == left_from.height
            && up_from.height == left_from.width,
        up_to.x == left_to.y && up_to.y == left_to.x && up_to.width == left_to.height
            && up_to.height == left_to.width,
    ensures
        focus_distance(left_from, left_to, Direction::Left) == focus_distance(
            from,
            to,
            Direction::Right,
        ),
        focus_distance(down_from, down_to, Direction::Down) == focus_distance(
            from,
            to,
            Direction::Right,
        ),
        focus_distance(up_from, up_to, Direction::Up) == focus_distance(
            from,
            to,
            Direction::Right,
        ),
{
}

/// A window right behind the edge that shares no space and leaves none across is at
/// distance zero; each unit by which it is farther off counts 2000.
pub proof fn law_distance_counts_way(from: Rect, to: Rect, farther: Rect)
    requires
        to.x >= from.x + from.width,
        farther.x >= to.x,
        farther.y == to.y,
        farther.width == to.width,
        farther.height == to.height,
    ensures
        focus_distance(from, farther, Direction::Right) - focus_distance(
            from,
            to,
            Direction::Right,
        ) == 2000 * (farther.x - to.x),
        to.x == from.x + from.width && to.y == from.y + from.height && to.height >= 0
            && from.height >= 0 ==> focus_distance(from, to, Direction::Right) == 0,
{
}

/// Each unit of space between two windows across the direction counts as much as a
/// hundred units of way.
pub proof fn law_distance_counts_space_between(from: Rect, to: Rect, aside: Rect)
    requires
        from.height >= 0,
        to.height >= 0,
        to.y >= from.y + from.height,
        aside.x == to.x,
        aside.y >= to.y,
        aside.width == to.width,
        aside.height == to.height,
    ensures
        focus_distance(from, aside, Direction::Right) - focus_distance(from, to, Direction::Right)
            == 200_000 * (aside.y - to.y),
{
}

/// Of windows with their middles level, one that shares more space across the direction is
/// nearer by 20 for each unit; of windows that reach past both ends, one whose middle is
/// farther off is farther by two for each unit.
pub proof fn law_distance_counts_shared_space(from: Rect, to: Rect, other: Rect)
    requires
        other.x == to.x,
        other.width == to.width,
        from.height > 0,
        to.height > 0,
        other.height > 0,
    ensures
        2 * to.y + to.height == 2 * from.y + from.height && 2 * other.y + other.height == 2
            * from.y + from.height && to.height <= other.height <= from.height
            ==> focus_distance(from, to, Direction::Right) - focus_distance(
            from,
            other,
            Direction::Right,
        ) == 20 * (other.height - to.height),
        to.y <= from.y && to.y + to.height >= from.y + from.height && other.height == to.height
            && other.y + other.height >= from.y + from.height && other.y <= to.y && 2 * to.y
            + to.height <= 2 * from.y + from.height ==> focus_distance(
            from,
            other,
            Direction::Right,
        ) - focus_distance(from, to, Direction::Right) == 2 * (to.y - other.y),
{
}

} // verus!
