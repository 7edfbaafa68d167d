//! Displays and their order on the desk.
use vstd::prelude::*;
use crate::seqs::{
    first_where, greater_key, is_first_where, is_order, lemma_first_where, lemma_first_where_found,
    lemma_first_where_none, lemma_sorted_in_order, lemma_sorted_keeps, sort_slot, sorted,
};
use crate::wm::geometry::Rect;

verus! {

/// Identifies a display.
pub type MonitorId = u32;

/// A display with its geometry.
#[derive(Clone, Copy, Debug, PartialEq, Eq, Structural)]
pub struct Monitor {
    pub id: MonitorId,
    /// The whole display, with dock and menu bar.
    pub frame: Rect,
    /// What dock and menu bar leave of it.
    pub usable_frame: Rect,
    pub is_primary: bool,
    /// Index of the workspace that the display shows.
    pub active_workspace: usize,
}

/// Tells the display of a number.
pub open spec fn is_display(id: MonitorId) -> spec_fn(Monitor) -> bool {
    |m: Monitor| m.id == id
}

/// Tells the displays on which a point lies.
pub open spec fn has_point(x: int, y: int) -> spec_fn(Monitor) -> bool {
    |m: Monitor| m.frame.has_point(x, y)
}

/// Tells the primary display.
pub open spec fn primary() -> spec_fn(Monitor) -> bool {
    |m: Monitor| m.is_primary
}

/// Tells the displays that show a workspace.
pub open spec fn shows(ws_idx: usize) -> spec_fn(Monitor) -> bool {
    |m: Monitor| m.active_workspace == ws_idx
}

/// Compares displays by their left edge.
pub open spec fn further_right() -> spec_fn(Monitor, Monitor) -> bool {
    greater_key(|m: Monitor| m.usable_frame.x as int)
}

/// The displays from left to right.
pub open spec fn left_to_right(s: Seq<Monitor>) -> Seq<Monitor> {
    sorted(s, further_right())
}

/// Finds a display by its number.
pub fn find_display(monitors: &Vec<Monitor>, id: MonitorId) -> (r: Option<usize>)
    ensures
        match r {
            Some(i) => first_where(monitors@, is_display(id)) == Some(i as int) && i
                < monitors@.len() && monitors@[i as int].id == id,
            None => first_where(monitors@, is_display(id)) is None,
        },
{
    let ghost p = is_display(id);
    let mut i: usize = 0;
    while i < monitors.len()
        invariant
            p == is_display(id),
            i <= monitors@.len(),
            forall|j: int| 0 <= j < i ==> !p(#[trigger] monitors@[j]),
        decreases monitors.len() - i,
    {
        if monitors[i].id == id {
            proof {
                lemma_first_where(monitors@, p, i as int);
            }
            return Some(i);
        }
        i = i + 1;
    }
    proof {
        lemma_first_where_none(monitors@, p);
    }
    None
}

/// Finds the display that shows a workspace.
pub fn find_showing(monitors: &Vec<Monitor>, ws_idx: usize) -> (r: Option<usize>)
    ensures
        match r {
            Some(i) => first_where(monitors@, shows(ws_idx)) == Some(i as int) && i
                < monitors@.len() && monitors@[i as int].active_workspace == ws_idx,
            None => first_where(monitors@, shows(ws_idx)) is None,
        },
{
    let ghost p = shows(ws_idx);
    let mut i: usize = 0;
    while i < monitors.len()
        invariant
            p == shows(ws_idx),
            i <= monitors@.len(),
            forall|j: int| 0 <= j < i ==> !p(#[trigger] monitors@[j]),
        decreases monitors.len() - i,
    {
        if monitors[i].active_workspace == ws_idx {
            proof {
                lemma_first_where(monitors@, p, i as int);
            }
            return Some(i);
        }
        i = i + 1;
    }
    proof {
        lemma_first_where_none(monitors@, p);
    }
    None
}

/// The first display on which a point lies.
pub fn index_at_point(monitors: &Vec<Monitor>, x: i64, y: i64) -> (r: Option<usize>)
    ensures
        match r {
            Some(i) => first_where(monitors@, has_point(x as int, y as int)) == Some(i as int) && i
                < monitors@.len(),
            None => first_where(monitors@, has_point(x as int, y as int)) is None,
        },
{
    let ghost p = has_point(x as int, y as int);
    let mut i: usize = 0;
    while i < monitors.len()
        invariant
            p == has_point(x as int, y as int),
            i <= monitors@.len(),
            forall|j: int| 0 <= j < i ==> !p(#[trigger] monitors@[j]),
        decreases monitors.len() - i,
    {
        if monitors[i].frame.contains_point(x, y) {
            proof {
                lemma_first_where(monitors@, p, i as int);
            }
            return Some(i);
        }
        i = i + 1;
    }
    proof {
        lemma_first_where_none(monitors@, p);
    }
    None
}

/// The place after `i` in a ring of `n`.
pub open spec fn ring_next(n: int, i: int) -> int {
    if i + 1 < n {
        i + 1
    } else {
        0
    }
}

/// The place before `i` in a ring of `n`.
pub open spec fn ring_prev(n: int, i: int) -> int {
    if i > 0 {
        i - 1
    } else {
        n - 1
    }
}

/// The display to the right; the leftmost one after the rightmost.
pub fn next_index(monitors: &Vec<Monitor>, from: usize) -> (r: usize)
    requires
        from < monitors@.len(),
    ensures
        r == ring_next(monitors@.len() as int, from as int),
        r < monitors@.len(),
{
    let count: usize = monitors.len();
    if from + 1 < count {
        from + 1
    } else {
        0
    }
}

/// The display to the left; the rightmost one after the leftmost.
pub fn prev_index(monitors: &Vec<Monitor>, from: usize) -> (r: usize)
    requires
        from < monitors@.len(),
    ensures
        r == ring_prev(monitors@.len() as int, from as int),
        r < monitors@.len(),
{
    if from > 0 {
        from - 1
    } else {
        monitors.len() - 1
    }
}

/// The display to the right, if there is one.
pub fn next_index_nowrap(monitors: &Vec<Monitor>, from: usize) -> (r: Option<usize>)
    requires
        from < monitors@.len(),
    ensures
        r == (if from + 1 < monitors@.len() {
            Some((from + 1) as usize)
        } else {
            None
        }),
{
    let count: usize = monitors.len();
    if from + 1 < count {
        Some(from + 1)
    } else {
        None
    }
}

/// The display to the left, if there is one.
pub fn prev_index_nowrap(monitors: &Vec<Monitor>, from: usize) -> (r: Option<usize>)
    ensures
        r == (if from > 0 {
            Some((from - 1) as usize)
        } else {
            None
        }),
{
    if from > 0 {
        Some(from - 1)
    } else {
        None
    }
}

/// Going one display on and one back, with wrapping, leads nowhere.
pub proof fn law_next_prev_cycle(n: int, i: int)
    requires
        0 <= i < n,
    ensures
        ring_prev(n, ring_next(n, i)) == i,
        ring_next(n, ring_prev(n, i)) == i,
        0 <= ring_next(n, i) < n,
        0 <= ring_prev(n, i) < n,
{
}

/// Sorts displays from left to right.
pub fn sort_left_to_right(monitors: &Vec<Monitor>) -> (r: Vec<Monitor>)
    ensures
        r@ == left_to_right(monitors@),
        r@.len() == monitors@.len(),
{
    let ghost gt = further_right();
    let mut list: Vec<Monitor> = Vec::new();
    let mut i: usize = 0;
    while i < monitors.len()
        invariant
            gt == further_right(),
            i <= monitors@.len(),
            list@ == sorted(monitors@.take(i as int), gt),
            list@.len() == i,
        decreases monitors.len() - i,
    {
        let m: Monitor = monitors[i];
        let ghost now = monitors@.take(i + 1);
        assert(now.drop_last() =~= monitors@.take(i as int));
        assert(now.last() == m);
        let mut slot: usize = list.len();
        assert(list@.take(slot as int) =~= list@);
        while slot > 0
            invariant_except_break
                gt == further_right(),
                slot <= list@.len(),
                sort_slot(list@, gt, m) == sort_slot(list@.take(slot as int), gt, m),
            ensures
                slot <= list@.len(),
                slot == sort_slot(list@, gt, m),
            decreases slot,
        {
            if list[slot - 1].usable_frame.x <= m.usable_frame.x {
                break;
            }
            assert(list@.take(slot as int).drop_last() =~= list@.take(slot - 1));
            slot = slot - 1;
        }
        list.insert(slot, m);
        i = i + 1;
    }
    assert(monitors@.take(monitors@.len() as int) =~= monitors@);
    list
}

/// All connected displays and the focused one.
#[derive(Debug)]
pub struct MonitorManager {
    pub monitors: Vec<Monitor>,
    pub focused: MonitorId,
}

/// The display that has the focus once a set of displays is there.
pub open spec fn initial_focus(monitors: Seq<Monitor>, before: MonitorId) -> MonitorId {
    match first_where(monitors, primary()) {
        Some(i) => monitors[i].id,
        None => if monitors.len() > 0 {
            monitors[0].id
        } else {
            before
        },
    }
}

/// The number of the display after or before another, from left to right.
pub open spec fn neighbour_display(
    monitors: Seq<Monitor>,
    from: MonitorId,
    forward: bool,
) -> Option<MonitorId> {
    let list = left_to_right(monitors);
    match first_where(list, is_display(from)) {
        Some(i) => Some(
            list[if forward {
                ring_next(list.len() as int, i)
            } else {
                ring_prev(list.len() as int, i)
            }].id,
        ),
        None => None,
    }
}

impl Default for MonitorManager {
    fn default() -> (r: Self)
        ensures
            r.monitors@.len() == 0,
            r.focused == 0,
    {
        MonitorManager::new()
    }
}

impl MonitorManager {
    pub fn new() -> (r: Self)
        ensures
            r.monitors@.len() == 0,
            r.focused == 0,
    {
        MonitorManager { monitors: Vec::new(), focused: 0 }
    }

    /// Takes over a set of displays; the primary one, or else the first, gets
    /// the focus.
    pub fn set_monitors(&mut self, monitors: Vec<Monitor>)
        ensures
            final(self).monitors@ == monitors@,
            final(self).focused == initial_focus(monitors@, old(self).focused),
    {
        let ghost p = primary();
        let mut found: Option<MonitorId> = None;
        let mut i: usize = 0;
        while i < monitors.len() && found.is_none()
            invariant
                p == primary(),
                i <= monitors@.len(),
                match found {
                    Some(id) => i > 0 && is_first_where(monitors@, p, i - 1) && monitors@[i - 1].id
                        == id,
                    None => forall|j: int| 0 <= j < i ==> !p(#[trigger] monitors@[j]),
                },
            decreases monitors.len() - i,
        {
            if monitors[i].is_primary {
                found = Some(monitors[i].id);
            }
            i = i + 1;
        }
        match found {
            Some(id) => {
                proof {
                    lemma_first_where(monitors@, p, i - 1);
                }
                self.focused = id;
            },
            None => {
                proof {
                    lemma_first_where_none(monitors@, p);
                }
                if monitors.len() > 0 {
                    self.focused = monitors[0].id;
                }
            },
        }
        self.monitors = monitors;
    }

    pub fn count(&self) -> (r: usize)
        ensures
            r == self.monitors@.len(),
    {
        self.monitors.len()
    }

    pub fn get(&self, id: MonitorId) -> (r: Option<&Monitor>)
        ensures
            match r {
                Some(m) => first_where(self.monitors@, is_display(id)) is Some && *m
                    == self.monitors@[first_where(self.monitors@, is_display(id))->0],
                None => first_where(self.monitors@, is_display(id)) is None,
            },
    {
        match find_display(&self.monitors, id) {
            Some(i) => Some(&self.monitors[i]),
            None => None,
        }
    }

    pub fn focused_monitor(&self) -> (r: Option<&Monitor>)
        ensures
            match r {
                Some(m) => first_where(self.monitors@, is_display(self.focused)) is Some && *m
                    == self.monitors@[first_where(self.monitors@, is_display(self.focused))->0],
                None => first_where(self.monitors@, is_display(self.focused)) is None,
            },
    {
        self.get(self.focused)
    }

    pub fn all(&self) -> (r: &Vec<Monitor>)
        ensures
            r@ == self.monitors@,
    {
        &self.monitors
    }

    /// The displays from left to right.
    pub fn sorted_by_position(&self) -> (r: Vec<Monitor>)
        ensures
            r@ == left_to_right(self.monitors@),
    {
        sort_left_to_right(&self.monitors)
    }

    /// The display to the right; the leftmost one after the rightmost.
    pub fn next_monitor(&self, from: MonitorId) -> (r: Option<MonitorId>)
        ensures
            r == neighbour_display(self.monitors@, from, true),
    {
        let list = self.sorted_by_position();
        match find_display(&list, from) {
            Some(i) => Some(list[next_index(&list, i)].id),
            None => None,
        }
    }

    /// The display to the left; the rightmost one after the leftmost.
    pub fn prev_monitor(&self, from: MonitorId) -> (r: Option<MonitorId>)
        ensures
            r == neighbour_display(self.monitors@, from, false),
    {
        let list = self.sorted_by_position();
        match find_display(&list, from) {
            Some(i) => Some(list[prev_index(&list, i)].id),
            None => None,
        }
    }

    /// The first display on which a point lies.
    pub fn monitor_at_point(&self, x: i64, y: i64) -> (r: Option<MonitorId>)
        ensures
            match r {
                Some(id) => first_where(self.monitors@, has_point(x as int, y as int)) is Some && id
                    == self.monitors@[first_where(
                    self.monitors@,
                    has_point(x as int, y as int),
                )->0].id,
                None => first_where(self.monitors@, has_point(x as int, y as int)) is None,
            },
    {
        match index_at_point(&self.monitors, x, y) {
            Some(i) => Some(self.monitors[i].id),
            None => None,
        }
    }
}

/// The display after the one before a display is that display again, if no two
/// displays have the same number.
pub proof fn law_next_monitor_undoes_prev(monitors: Seq<Monitor>, from: MonitorId)
    requires
        forall|i: int, j: int|
            0 <= i < monitors.len() && 0 <= j < monitors.len() && i != j
                ==> #[trigger] left_to_right(monitors)[i].id != #[trigger] left_to_right(
                monitors,
            )[j].id,
        first_where(left_to_right(monitors), is_display(from)) is Some,
    ensures
        neighbour_display(monitors, from, false) is Some,
        neighbour_display(monitors, neighbour_display(monitors, from, false)->0, true) == Some(
            from,
        ),
        neighbour_display(monitors, neighbour_display(monitors, from, true)->0, false) == Some(
            from,
        ),
{
    let list = left_to_right(monitors);
    lemma_sorted_keeps(monitors, further_right());
    lemma_first_where_found(list, is_display(from));
    let i = first_where(list, is_display(from))->0;
    let n = list.len() as int;
    law_next_prev_cycle(n, i);
    let p = ring_prev(n, i);
    let q = ring_next(n, i);
    assert(is_first_where(list, is_display(list[p].id), p)) by {
        assert forall|j: int| 0 <= j < p implies !is_display(list[p].id)(#[trigger] list[j]) by {
            assert(left_to_right(monitors)[j].id != left_to_right(monitors)[p].id);
        }
    }
    lemma_first_where(list, is_display(list[p].id), p);
    assert(is_first_where(list, is_display(list[q].id), q)) by {
        assert forall|j: int| 0 <= j < q implies !is_display(list[q].id)(#[trigger] list[j]) by {
            assert(left_to_right(monitors)[j].id != left_to_right(monitors)[q].id);
        }
    }
    lemma_first_where(list, is_display(list[q].id), q);
}

/// Displays that are listed from left to right are in that order, and none is
/// lost or doubled.
pub proof fn law_displays_go_from_left_to_right(s: Seq<Monitor>)
    ensures
        left_to_right(s).to_multiset() == s.to_multiset(),
        forall|i: int, j: int|
            0 <= i < j < left_to_right(s).len() ==> (
            #[trigger] left_to_right(s)[i]).usable_frame.x <= (
            #[trigger] left_to_right(s)[j]).usable_frame.x,
{
    let gt = further_right();
    lemma_sorted_keeps(s, gt);
    assert(is_order(gt));
    lemma_sorted_in_order(s, gt);
    assert forall|i: int, j: int| 0 <= i < j < left_to_right(s).len() implies (
    #[trigger] left_to_right(s)[i]).usable_frame.x <= (
    #[trigger] left_to_right(s)[j]).usable_frame.x by {
        assert(!gt(left_to_right(s)[i], left_to_right(s)[j]));
    }
}

} // verus!
