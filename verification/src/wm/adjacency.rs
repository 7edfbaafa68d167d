//! Finding the neighbour of a window in a direction.
use vstd::prelude::*;
use crate::wm::geometry::{Direction, Rect};
use crate::wm::tree::Node;
use crate::wm::window::WindowId;

verus! {

/// The rectangle of the first entry for `w`.
pub open spec fn rect_of(geometries: Seq<(WindowId, Rect)>, w: WindowId) -> Option<Rect>
    decreases geometries.len(),
{
    if geometries.len() == 0 {
        None
    } else if geometries[0].0 == w {
        Some(geometries[0].1)
    } else {
        rect_of(geometries.drop_first(), w)
    }
}

/// Whether the centre of `to` lies in `direction` from the centre of `from`.
pub open spec fn lies_in_direction(from: Rect, to: Rect, direction: Direction) -> bool {
    match direction {
        Direction::Left => to.twice_center_x() < from.twice_center_x(),
        Direction::Right => to.twice_center_x() > from.twice_center_x(),
        Direction::Up => to.twice_center_y() < from.twice_center_y(),
        Direction::Down => to.twice_center_y() > from.twice_center_y(),
    }
}

pub open spec fn abs(v: int) -> int {
    if v < 0 {
        -v
    } else {
        v
    }
}

pub open spec fn min(a: int, b: int) -> int {
    if a < b {
        a
    } else {
        b
    }
}

pub open spec fn max(a: int, b: int) -> int {
    if a > b {
        a
    } else {
        b
    }
}

/// How far `to` is from `from` for moving the focus in `direction`, in
/// two-thousandths of a length unit. The distance between the facing edges
/// counts in full. Where the two share space across the direction, a hundredth
/// of what they share is taken off and a thousandth of the distance between
/// their centres added; where they do not, the space between them counts a
/// hundredfold.
pub open spec fn focus_distance(from: Rect, to: Rect, direction: Direction) -> int {
    match direction {
        Direction::Left | Direction::Right => {
            let gap = if direction == Direction::Right {
                abs(to.x - (from.x + from.width))
            } else {
                abs(from.x - (to.x + to.width))
            };
            let shared = min(from.y + from.height, to.y + to.height) - max(
                from.y as int,
                to.y as int,
            );
            if shared > 0 {
                2000 * gap - 20 * shared + abs(to.twice_center_y() - from.twice_center_y())
            } else {
                2000 * gap - 200_000 * shared
            }
        },
        Direction::Up | Direction::Down => {
            let gap = if direction == Direction::Down {
                abs(to.y - (from.y + from.height))
            } else {
                abs(from.y - (to.y + to.height))
            };
            let shared = min(from.x + from.width, to.x + to.width) - max(
                from.x as int,
                to.x as int,
            );
            if shared > 0 {
                2000 * gap - 20 * shared + abs(to.twice_center_x() - from.twice_center_x())
            } else {
                2000 * gap - 200_000 * shared
            }
        },
    }
}

/// Tells the entries other than `from` whose centre lies in `direction`.
pub open spec fn is_entry_in_direction(
    from: WindowId,
    from_rect: Rect,
    direction: Direction,
) -> spec_fn((WindowId, Rect)) -> bool {
    |e: (WindowId, Rect)| e.0 != from && lies_in_direction(from_rect, e.1, direction)
}

/// The entries other than `from` whose centre lies in `direction`.
pub open spec fn entries_in_direction(
    geometries: Seq<(WindowId, Rect)>,
    from: WindowId,
    from_rect: Rect,
    direction: Direction,
) -> Seq<(WindowId, Rect)> {
    geometries.filter(is_entry_in_direction(from, from_rect, direction))
}

/// Where an entry at `distance` goes in a ranking: behind every entry that is
/// not farther away.
pub open spec fn rank_slot(
    ranking: Seq<(WindowId, Rect)>,
    from_rect: Rect,
    direction: Direction,
    distance: int,
) -> int
    decreases ranking.len(),
{
    if ranking.len() == 0 {
        0
    } else if focus_distance(from_rect, ranking.last().1, direction) > distance {
        rank_slot(ranking.drop_last(), from_rect, direction, distance)
    } else {
        ranking.len() as int
    }
}

/// The entries by growing distance; entries at the same distance keep their
/// order.
pub open spec fn ranked(
    entries: Seq<(WindowId, Rect)>,
    from_rect: Rect,
    direction: Direction,
) -> Seq<(WindowId, Rect)>
    decreases entries.len(),
{
    if entries.len() == 0 {
        seq![]
    } else {
        let before = ranked(entries.drop_last(), from_rect, direction);
        let x = entries.last();
        before.insert(
            rank_slot(before, from_rect, direction, focus_distance(from_rect, x.1, direction)),
            x,
        )
    }
}

/// The windows of a list of entries.
pub open spec fn ids_of(entries: Seq<(WindowId, Rect)>) -> Seq<WindowId> {
    Seq::new(entries.len(), |i: int| entries[i].0)
}

/// The neighbours of `from` in `direction`, best first.
pub open spec fn neighbours(
    geometries: Seq<(WindowId, Rect)>,
    from: WindowId,
    direction: Direction,
) -> Seq<WindowId> {
    match rect_of(geometries, from) {
        None => seq![],
        Some(from_rect) => ids_of(
            ranked(
                entries_in_direction(geometries, from, from_rect, direction),
                from_rect,
                direction,
            ),
        ),
    }
}

/// What is smallest for the window next to the edge that a move in
/// `direction` enters through.
pub open spec fn edge_key(rect: Rect, direction: Direction) -> int {
    match direction {
        Direction::Right => rect.twice_center_x(),
        Direction::Left => -rect.twice_center_x(),
        Direction::Down => rect.twice_center_y(),
        Direction::Up => -rect.twice_center_y(),
    }
}

/// Entry `i` is the first of those nearest to the edge of entry.
pub open spec fn is_nearest_to_edge(
    geometries: Seq<(WindowId, Rect)>,
    direction: Direction,
    i: int,
) -> bool {
    &&& 0 <= i < geometries.len()
    &&& forall|j: int|
        0 <= j < geometries.len() ==> edge_key(geometries[i].1, direction) <= #[trigger] edge_key(
            geometries[j].1,
            direction,
        )
    &&& forall|j: int|
        0 <= j < i ==> edge_key(geometries[i].1, direction) < #[trigger] edge_key(
            geometries[j].1,
            direction,
        )
}

/// The window next to the edge through which a move in `direction` enters.
pub open spec fn nearest(
    geometries: Seq<(WindowId, Rect)>,
    direction: Direction,
) -> Option<WindowId> {
    if geometries.len() == 0 {
        None
    } else {
        Some(geometries[choose|i: int| is_nearest_to_edge(geometries, direction, i)].0)
    }
}

/// Only one entry is the nearest.
proof fn lemma_nearest(geometries: Seq<(WindowId, Rect)>, direction: Direction, i: int)
    requires
        is_nearest_to_edge(geometries, direction, i),
    ensures
        nearest(geometries, direction) == Some(geometries[i].0),
{
    let k = choose|k: int| is_nearest_to_edge(geometries, direction, k);
    assert(is_nearest_to_edge(geometries, direction, k));
    assert(edge_key(geometries[i].1, direction) <= edge_key(geometries[k].1, direction));
    assert(edge_key(geometries[k].1, direction) <= edge_key(geometries[i].1, direction));
    if k < i {
        assert(edge_key(geometries[i].1, direction) < edge_key(geometries[k].1, direction));
    } else if i < k {
        assert(edge_key(geometries[k].1, direction) < edge_key(geometries[i].1, direction));
    }
}

/// A ranking holds the ranked entries, each as often, by growing distance.
pub proof fn lemma_ranked(entries: Seq<(WindowId, Rect)>, from_rect: Rect, direction: Direction)
    ensures
        ranked(entries, from_rect, direction).to_multiset() == entries.to_multiset(),
        ranked(entries, from_rect, direction).len() == entries.len(),
        forall|i: int, j: int|
            0 <= i <= j < entries.len() ==> focus_distance(
                from_rect,
                #[trigger] ranked(entries, from_rect, direction)[i].1,
                direction,
            ) <= focus_distance(
                from_rect,
                #[trigger] ranked(entries, from_rect, direction)[j].1,
                direction,
            ),
    decreases entries.len(),
{
    broadcast use vstd::seq_lib::group_to_multiset_ensures;

    if entries.len() == 0 {
        assert(entries =~= seq![]);
    } else {
        let rest = entries.drop_last();
        let x = entries.last();
        lemma_ranked(rest, from_rect, direction);
        let before = ranked(rest, from_rect, direction);
        let d = focus_distance(from_rect, x.1, direction);
        lemma_rank_slot(before, from_rect, direction, d);
        let at = rank_slot(before, from_rect, direction, d);
        let after = before.insert(at, x);
        assert(rest.push(x) =~= entries);
        assert(after.to_multiset() =~= before.to_multiset().insert(x)) by {
            vstd::seq_lib::to_multiset_insert(before, at, x);
        }
        assert(rest.push(x).to_multiset() =~= rest.to_multiset().insert(x));
        assert forall|i: int, j: int| 0 <= i <= j < after.len() implies focus_distance(
            from_rect,
            #[trigger] after[i].1,
            direction,
        ) <= focus_distance(from_rect, #[trigger] after[j].1, direction) by {
            let pi = if i < at { i } else { i - 1 };
            let pj = if j < at { j } else { j - 1 };
            if i != at {
                assert(after[i] == before[pi]);
            }
            if j != at {
                assert(after[j] == before[pj]);
            }
        }
    }
}

/// The slot parts a sorted ranking into what is not farther and what is.
pub proof fn lemma_rank_slot(
    ranking: Seq<(WindowId, Rect)>,
    from_rect: Rect,
    direction: Direction,
    distance: int,
)
    requires
        forall|i: int, j: int|
            0 <= i <= j < ranking.len() ==> focus_distance(
                from_rect,
                #[trigger] ranking[i].1,
                direction,
            ) <= focus_distance(from_rect, #[trigger] ranking[j].1, direction),
    ensures
        0 <= rank_slot(ranking, from_rect, direction, distance) <= ranking.len(),
        forall|i: int|
            0 <= i < rank_slot(ranking, from_rect, direction, distance) ==> focus_distance(
                from_rect,
                #[trigger] ranking[i].1,
                direction,
            ) <= distance,
        forall|i: int|
            rank_slot(ranking, from_rect, direction, distance) <= i < ranking.len()
                ==> focus_distance(from_rect, #[trigger] ranking[i].1, direction) > distance,
    decreases ranking.len(),
{
    if ranking.len() > 0 && focus_distance(from_rect, ranking.last().1, direction) > distance {
        let rest = ranking.drop_last();
        assert forall|i: int, j: int| 0 <= i <= j < rest.len() implies focus_distance(
            from_rect,
            #[trigger] rest[i].1,
            direction,
        ) <= focus_distance(from_rect, #[trigger] rest[j].1, direction) by {
            assert(rest[i] == ranking[i] && rest[j] == ranking[j]);
        }
        lemma_rank_slot(rest, from_rect, direction, distance);
        assert forall|i: int|
            0 <= i < rank_slot(ranking, from_rect, direction, distance) implies focus_distance(
            from_rect,
            #[trigger] ranking[i].1,
            direction,
        ) <= distance by {
            assert(rest[i] == ranking[i]);
        }
        assert forall|i: int|
            rank_slot(ranking, from_rect, direction, distance) <= i
                < ranking.len() implies focus_distance(
            from_rect,
            #[trigger] ranking[i].1,
            direction,
        ) > distance by {
            if i < rest.len() {
                assert(rest[i] == ranking[i]);
            }
        }
    } else if ranking.len() > 0 {
        assert forall|i: int| 0 <= i < ranking.len() implies focus_distance(
            from_rect,
            #[trigger] ranking[i].1,
            direction,
        ) <= distance by {
            assert(ranking[ranking.len() - 1] == ranking.last());
        }
    }
}

fn abs_i128(v: i128) -> (r: i128)
    requires
        v > i128::MIN,
    ensures
        r == abs(v as int),
{
    if v < 0 {
        -v
    } else {
        v
    }
}

/// Finds the rectangle of a window.
pub fn find_rect(geometries: &Vec<(WindowId, Rect)>, w: WindowId) -> (r: Option<Rect>)
    ensures
        r == rect_of(geometries@, w),
{
    let mut i: usize = 0;
    assert(geometries@.skip(0) =~= geometries@);
    while i < geometries.len()
        invariant
            i <= geometries@.len(),
            rect_of(geometries@, w) == rect_of(geometries@.skip(i as int), w),
        decreases geometries.len() - i,
    {
        if geometries[i].0 == w {
            return Some(geometries[i].1);
        }
        assert(geometries@.skip(i as int).drop_first() =~= geometries@.skip(i + 1));
        i = i + 1;
    }
    None
}

impl Node {
    /// The nearest window in a direction.
    pub fn find_adjacent(
        geometries: &Vec<(WindowId, Rect)>,
        from: WindowId,
        direction: Direction,
    ) -> (r: Option<WindowId>)
        ensures
            r == (if neighbours(geometries@, from, direction).len() > 0 {
                Some(neighbours(geometries@, from, direction)[0])
            } else {
                None
            }),
    {
        let candidates = Node::adjacent_candidates(geometries, from, direction);
        if candidates.len() > 0 {
            Some(candidates[0])
        } else {
            None
        }
    }

    /// All windows in a direction, best first.
    pub fn adjacent_candidates(
        geometries: &Vec<(WindowId, Rect)>,
        from: WindowId,
        direction: Direction,
    ) -> (r: Vec<WindowId>)
        ensures
            r@ == neighbours(geometries@, from, direction),
    {
        let from_rect: Rect = match find_rect(geometries, from) {
            Some(rect) => rect,
            None => {
                return Vec::new();
            },
        };
        let ghost chosen = is_entry_in_direction(from, from_rect, direction);
        let mut ranking: Vec<(WindowId, Rect)> = Vec::new();
        let mut i: usize = 0;
        while i < geometries.len()
            invariant
                i <= geometries@.len(),
                chosen == is_entry_in_direction(from, from_rect, direction),
                ranking@ == ranked(
                    geometries@.take(i as int).filter(chosen),
                    from_rect,
                    direction,
                ),
            decreases geometries.len() - i,
        {
            let entry: (WindowId, Rect) = geometries[i];
            proof {
                assert(geometries@.take(i + 1).drop_last() =~= geometries@.take(i as int));
                assert(geometries@.take(i + 1).last() == entry);
                reveal(Seq::filter);
            }
            if entry.0 != from && Node::is_in_direction(&from_rect, &entry.1, direction) {
                let distance: i128 = Node::adjacent_distance(&from_rect, &entry.1, direction);
                let mut slot: usize = ranking.len();
                assert(ranking@.take(slot as int) =~= ranking@);
                while slot > 0
                    invariant_except_break
                        slot <= ranking@.len(),
                        rank_slot(ranking@, from_rect, direction, distance as int) == rank_slot(
                            ranking@.take(slot as int),
                            from_rect,
                            direction,
                            distance as int,
                        ),
                    ensures
                        slot <= ranking@.len(),
                        slot == rank_slot(ranking@, from_rect, direction, distance as int),
                    decreases slot,
                {
                    if Node::adjacent_distance(&from_rect, &ranking[slot - 1].1, direction)
                        <= distance {
                        break;
                    }
                    assert(ranking@.take(slot as int).drop_last() =~= ranking@.take(slot - 1));
                    slot = slot - 1;
                }
                ranking.insert(slot, entry);
                proof {
                    let now = geometries@.take(i + 1).filter(chosen);
                    assert(now.drop_last() =~= geometries@.take(i as int).filter(chosen));
                    assert(now.last() == entry);
                }
            }
            i = i + 1;
        }
        assert(geometries@.take(geometries@.len() as int) =~= geometries@);
        let mut ids: Vec<WindowId> = Vec::new();
        let mut k: usize = 0;
        while k < ranking.len()
            invariant
                k <= ranking@.len(),
                ids@ == ids_of(ranking@.take(k as int)),
            decreases ranking.len() - k,
        {
            ids.push(ranking[k].0);
            k = k + 1;
            assert(ids@ =~= ids_of(ranking@.take(k as int)));
        }
        assert(ranking@.take(ranking@.len() as int) =~= ranking@);
        ids
    }

    fn is_in_direction(from: &Rect, to: &Rect, direction: Direction) -> (r: bool)
        ensures
            r == lies_in_direction(*from, *to, direction),
    {
        let from_x: i128 = 2 * (from.x as i128) + from.width as i128;
        let from_y: i128 = 2 * (from.y as i128) + from.height as i128;
        let to_x: i128 = 2 * (to.x as i128) + to.width as i128;
        let to_y: i128 = 2 * (to.y as i128) + to.height as i128;
        match direction {
            Direction::Left => to_x < from_x,
            Direction::Right => to_x > from_x,
            Direction::Up => to_y < from_y,
            Direction::Down => to_y > from_y,
        }
    }

    /// How far `to` is from `from` for moving the focus, in two-thousandths of
    /// a length unit.
    pub fn adjacent_distance(from: &Rect, to: &Rect, direction: Direction) -> (r: i128)
        ensures
            r == focus_distance(*from, *to, direction),
    {
        let from_right: i128 = from.x as i128 + from.width as i128;
        let from_bottom: i128 = from.y as i128 + from.height as i128;
        let to_right: i128 = to.x as i128 + to.width as i128;
        let to_bottom: i128 = to.y as i128 + to.height as i128;
        let from_cx: i128 = 2 * (from.x as i128) + from.width as i128;
        let from_cy: i128 = 2 * (from.y as i128) + from.height as i128;
        let to_cx: i128 = 2 * (to.x as i128) + to.width as i128;
        let to_cy: i128 = 2 * (to.y as i128) + to.height as i128;
        match direction {
            Direction::Left | Direction::Right => {
                let gap: i128 = if direction == Direction::Right {
                    abs_i128(to.x as i128 - from_right)
                } else {
                    abs_i128(from.x as i128 - to_right)
                };
                let top: i128 = if from.y > to.y { from.y as i128 } else { to.y as i128 };
                let bottom: i128 = if from_bottom < to_bottom { from_bottom } else { to_bottom };
                let shared: i128 = bottom - top;
                if shared > 0 {
                    2000 * gap - 20 * shared + abs_i128(to_cy - from_cy)
                } else {
                    2000 * gap - 200_000 * shared
                }
            },
            Direction::Up | Direction::Down => {
                let gap: i128 = if direction == Direction::Down {
                    abs_i128(to.y as i128 - from_bottom)
                } else {
                    abs_i128(from.y as i128 - to_bottom)
                };
                let left: i128 = if from.x > to.x { from.x as i128 } else { to.x as i128 };
                let right: i128 = if from_right < to_right { from_right } else { to_right };
                let shared: i128 = right - left;
                if shared > 0 {
                    2000 * gap - 20 * shared + abs_i128(to_cx - from_cx)
                } else {
                    2000 * gap - 200_000 * shared
                }
            },
        }
    }

    /// The window next to the edge through which a move in `direction` enters.
    pub fn nearest_to_edge(
        geometries: &Vec<(WindowId, Rect)>,
        direction: Direction,
    ) -> (r: Option<WindowId>)
        ensures
            r == nearest(geometries@, direction),
    {
        if geometries.len() == 0 {
            return None;
        }
        let mut best: usize = 0;
        let mut i: usize = 1;
        while i < geometries.len()
            invariant
                best < i <= geometries@.len(),
                is_nearest_to_edge(geometries@.take(i as int), direction, best as int),
            decreases geometries.len() - i,
        {
            let ghost before = geometries@.take(i as int);
            let ghost after = geometries@.take(i + 1);
            assert(forall|j: int| 0 <= j < i ==> #[trigger] after[j] == before[j]);
            assert(after[i as int] == geometries@[i as int]);
            if Node::edge_rank(&geometries[i].1, direction) < Node::edge_rank(
                &geometries[best].1,
                direction,
            ) {
                assert forall|j: int| 0 <= j < i implies edge_key(after[i as int].1, direction)
                    < #[trigger] edge_key(after[j].1, direction) by {
                    assert(edge_key(before[best as int].1, direction) <= edge_key(
                        before[j].1,
                        direction,
                    ));
                }
                best = i;
            } else {
                assert forall|j: int| 0 <= j < after.len() implies edge_key(
                    after[best as int].1,
                    direction,
                ) <= #[trigger] edge_key(after[j].1, direction) by {
                    if j < i {
                        assert(edge_key(before[best as int].1, direction) <= edge_key(
                            before[j].1,
                            direction,
                        ));
                    }
                }
                assert forall|j: int| 0 <= j < best implies edge_key(
                    after[best as int].1,
                    direction,
                ) < #[trigger] edge_key(after[j].1, direction) by {
                    assert(edge_key(before[best as int].1, direction) < edge_key(
                        before[j].1,
                        direction,
                    ));
                }
            }
            i = i + 1;
        }
        assert(geometries@.take(geometries@.len() as int) =~= geometries@);
        proof {
            lemma_nearest(geometries@, direction, best as int);
        }
        Some(geometries[best].0)
    }

    fn edge_rank(rect: &Rect, direction: Direction) -> (r: i128)
        ensures
            r == edge_key(*rect, direction),
    {
        let cx: i128 = 2 * (rect.x as i128) + rect.width as i128;
        let cy: i128 = 2 * (rect.y as i128) + rect.height as i128;
        match direction {
            Direction::Right => cx,
            Direction::Left => -cx,
            Direction::Down => cy,
            Direction::Up => -cy,
        }
    }
}

} // verus!
