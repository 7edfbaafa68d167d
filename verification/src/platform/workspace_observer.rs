//! What changed between two looks at the screen: windows that came and went,
//! programs that ended, and the program in front.
use vstd::prelude::*;
use crate::seqs::{first_where, lemma_first_where, lemma_first_where_found, lemma_first_where_none};
use crate::text::copy;

verus! {

/// A window on the screen.
#[derive(Debug)]
pub struct CgWindow {
    pub wid: u32,
    pub pid: i32,
    /// The name of the program that it belongs to.
    pub owner: String,
}

/// A window as a mathematical value: number, program and name of the program.
pub open spec fn cg_views(s: Seq<CgWindow>) -> Seq<(u32, i32, Seq<char>)> {
    Seq::new(s.len(), |i: int| (s[i].wid, s[i].pid, s[i].owner@))
}

/// Tells the entry of a window.
pub open spec fn is_window(wid: u32) -> spec_fn((u32, i32)) -> bool {
    |e: (u32, i32)| e.0 == wid
}

/// Whether a list has a window.
pub open spec fn has_window(list: Seq<(u32, i32)>, wid: u32) -> bool {
    exists|i: int| 0 <= i < list.len() && (#[trigger] list[i]).0 == wid
}

/// A list with a window, which takes the place of an earlier entry.
pub open spec fn with_window(list: Seq<(u32, i32)>, wid: u32, pid: i32) -> Seq<(u32, i32)> {
    match first_where(list, is_window(wid)) {
        Some(i) => list.update(i, (wid, pid)),
        None => list.push((wid, pid)),
    }
}

/// The windows on the screen with their programs, each once.
pub open spec fn windows_of(seen: Seq<(u32, i32)>) -> Seq<(u32, i32)>
    decreases seen.len(),
{
    if seen.len() == 0 {
        seq![]
    } else {
        with_window(windows_of(seen.drop_last()), seen.last().0, seen.last().1)
    }
}

/// The numbers of a list, each once.
pub open spec fn each_once(list: Seq<i32>) -> Seq<i32>
    decreases list.len(),
{
    if list.len() == 0 {
        seq![]
    } else {
        let before = each_once(list.drop_last());
        if before.contains(list.last()) {
            before
        } else {
            before.push(list.last())
        }
    }
}

/// The windows that are gone, but for those that are hidden on purpose.
pub open spec fn vanished(
    known: Seq<(u32, i32)>,
    current: Seq<(u32, i32)>,
    hidden: Seq<u32>,
) -> Seq<(u32, i32)>
    decreases known.len(),
{
    if known.len() == 0 {
        seq![]
    } else {
        let before = vanished(known.drop_last(), current, hidden);
        let wid = known.last().0;
        if !has_window(current, wid) && !hidden.contains(wid) {
            before.push(known.last())
        } else {
            before
        }
    }
}

/// The programs that have ended.
pub open spec fn ended(known: Seq<i32>, current: Seq<i32>) -> Seq<i32>
    decreases known.len(),
{
    if known.len() == 0 {
        seq![]
    } else {
        let before = ended(known.drop_last(), current);
        if current.contains(known.last()) {
            before
        } else {
            before.push(known.last())
        }
    }
}

/// The windows that were not known.
pub open spec fn unknown(
    windows: Seq<(u32, i32, Seq<char>)>,
    known: Seq<(u32, i32)>,
) -> Seq<(u32, i32, Seq<char>)>
    decreases windows.len(),
{
    if windows.len() == 0 {
        seq![]
    } else {
        let before = unknown(windows.drop_last(), known);
        if has_window(known, windows.last().0) {
            before
        } else {
            before.push(windows.last())
        }
    }
}

fn find_window(list: &Vec<(u32, i32)>, wid: u32) -> (r: Option<usize>)
    ensures
        match r {
            Some(i) => i < list@.len() && first_where(list@, is_window(wid)) == Some(i as int)
                && has_window(list@, wid),
            None => first_where(list@, is_window(wid)) is None && !has_window(list@, wid),
        },
{
    let ghost p = is_window(wid);
    let mut i: usize = 0;
    while i < list.len()
        invariant
            p == is_window(wid),
            i <= list@.len(),
            forall|j: int| 0 <= j < i ==> !p(#[trigger] list@[j]),
        decreases list.len() - i,
    {
        if list[i].0 == wid {
            proof {
                lemma_first_where(list@, p, i as int);
            }
            return Some(i);
        }
        i = i + 1;
    }
    proof {
        lemma_first_where_none(list@, p);
        assert forall|j: int| 0 <= j < list@.len() implies (#[trigger] list@[j]).0 != wid by {
            assert(!p(list@[j]));
        }
    }
    None
}

fn has_number(list: &Vec<i32>, n: i32) -> (r: bool)
    ensures
        r == list@.contains(n),
{
    let mut i: usize = 0;
    while i < list.len()
        invariant
            i <= list@.len(),
            forall|j: int| 0 <= j < i ==> list@[j] != n,
        decreases list.len() - i,
    {
        if list[i] == n {
            return true;
        }
        i = i + 1;
    }
    false
}

fn is_hidden(list: &Vec<u32>, wid: u32) -> (r: bool)
    ensures
        r == list@.contains(wid),
{
    let mut i: usize = 0;
    while i < list.len()
        invariant
            i <= list@.len(),
            forall|j: int| 0 <= j < i ==> list@[j] != wid,
        decreases list.len() - i,
    {
        if list[i] == wid {
            return true;
        }
        i = i + 1;
    }
    false
}

fn collect_windows(seen: &Vec<(u32, i32)>) -> (r: Vec<(u32, i32)>)
    ensures
        r@ == windows_of(seen@),
{
    let mut list: Vec<(u32, i32)> = Vec::new();
    let mut i: usize = 0;
    assert(list@ =~= windows_of(seen@.take(0)));
    while i < seen.len()
        invariant
            i <= seen@.len(),
            list@ == windows_of(seen@.take(i as int)),
        decreases seen.len() - i,
    {
        proof {
            assert(seen@.take(i + 1).drop_last() =~= seen@.take(i as int));
            assert(seen@.take(i + 1).last() == seen@[i as int]);
        }
        let entry: (u32, i32) = seen[i];
        match find_window(&list, entry.0) {
            Some(k) => {
                list[k] = entry;
            },
            None => {
                list.push(entry);
            },
        }
        i = i + 1;
    }
    assert(seen@.take(seen@.len() as int) =~= seen@);
    list
}

fn collect_numbers(seen: &Vec<i32>) -> (r: Vec<i32>)
    ensures
        r@ == each_once(seen@),
{
    let mut list: Vec<i32> = Vec::new();
    let mut i: usize = 0;
    assert(list@ =~= each_once(seen@.take(0)));
    while i < seen.len()
        invariant
            i <= seen@.len(),
            list@ == each_once(seen@.take(i as int)),
        decreases seen.len() - i,
    {
        proof {
            assert(seen@.take(i + 1).drop_last() =~= seen@.take(i as int));
            assert(seen@.take(i + 1).last() == seen@[i as int]);
        }
        if !has_number(&list, seen[i]) {
            list.push(seen[i]);
        }
        i = i + 1;
    }
    assert(seen@.take(seen@.len() as int) =~= seen@);
    list
}

/// What a look at the screen found.
#[derive(Debug)]
pub struct PollReport {
    /// The windows that are gone, with their programs.
    pub closed: Vec<(u32, i32)>,
    /// The programs that have ended.
    pub terminated: Vec<i32>,
    /// The program that has come to the front.
    pub frontmost: Option<i32>,
}

/// What was on the screen at the last look.
#[derive(Debug)]
pub struct WorkspacePollingObserver {
    pub known_windows: Vec<(u32, i32)>,
    pub known_pids: Vec<i32>,
    pub known_frontmost_pid: Option<i32>,
}

impl WorkspacePollingObserver {
    pub fn new(
        windows: &Vec<(u32, i32)>,
        pids: &Vec<i32>,
        frontmost: Option<i32>,
    ) -> (r: Self)
        ensures
            r.known_windows@ == windows_of(windows@),
            r.known_pids@ == each_once(pids@),
            r.known_frontmost_pid == frontmost,
    {
        WorkspacePollingObserver {
            known_windows: collect_windows(windows),
            known_pids: collect_numbers(pids),
            known_frontmost_pid: frontmost,
        }
    }

    /// The windows that have come since the last look.
    pub fn poll(&self, windows: &Vec<CgWindow>) -> (r: Vec<CgWindow>)
        ensures
            cg_views(r@) == unknown(cg_views(windows@), self.known_windows@),
    {
        let ghost all = cg_views(windows@);
        let mut fresh: Vec<CgWindow> = Vec::new();
        let mut i: usize = 0;
        assert(cg_views(fresh@) =~= unknown(all.take(0), self.known_windows@));
        while i < windows.len()
            invariant
                all == cg_views(windows@),
                i <= windows@.len(),
                cg_views(fresh@) == unknown(all.take(i as int), self.known_windows@),
            decreases windows.len() - i,
        {
            let ghost before = cg_views(fresh@);
            proof {
                assert(all.take(i + 1).drop_last() =~= all.take(i as int));
                assert(all.take(i + 1).last() == all[i as int]);
            }
            if find_window(&self.known_windows, windows[i].wid).is_none() {
                fresh.push(
                    CgWindow {
                        wid: windows[i].wid,
                        pid: windows[i].pid,
                        owner: copy(windows[i].owner.as_str()),
                    },
                );
                assert(cg_views(fresh@) =~= before.push(all[i as int]));
            }
            i = i + 1;
        }
        assert(all.take(all.len() as int) =~= all);
        fresh
    }

    fn find_vanished(&self, current: &Vec<(u32, i32)>, hidden: &Vec<u32>) -> (r: Vec<(u32, i32)>)
        ensures
            r@ == vanished(self.known_windows@, current@, hidden@),
    {
        let ghost all = self.known_windows@;
        let mut closed: Vec<(u32, i32)> = Vec::new();
        let mut i: usize = 0;
        assert(closed@ =~= vanished(all.take(0), current@, hidden@));
        while i < self.known_windows.len()
            invariant
                all == self.known_windows@,
                i <= all.len(),
                closed@ == vanished(all.take(i as int), current@, hidden@),
            decreases self.known_windows.len() - i,
        {
            proof {
                assert(all.take(i + 1).drop_last() =~= all.take(i as int));
                assert(all.take(i + 1).last() == all[i as int]);
            }
            let entry: (u32, i32) = self.known_windows[i];
            if find_window(current, entry.0).is_none() && !is_hidden(hidden, entry.0) {
                closed.push(entry);
            }
            i = i + 1;
        }
        assert(all.take(all.len() as int) =~= all);
        closed
    }

    fn find_ended(&self, current: &Vec<i32>) -> (r: Vec<i32>)
        ensures
            r@ == ended(self.known_pids@, current@),
    {
        let ghost all = self.known_pids@;
        let mut gone: Vec<i32> = Vec::new();
        let mut i: usize = 0;
        assert(gone@ =~= ended(all.take(0), current@));
        while i < self.known_pids.len()
            invariant
                all == self.known_pids@,
                i <= all.len(),
                gone@ == ended(all.take(i as int), current@),
            decreases self.known_pids.len() - i,
        {
            proof {
                assert(all.take(i + 1).drop_last() =~= all.take(i as int));
                assert(all.take(i + 1).last() == all[i as int]);
            }
            if !has_number(current, self.known_pids[i]) {
                gone.push(self.known_pids[i]);
            }
            i = i + 1;
        }
        assert(all.take(all.len() as int) =~= all);
        gone
    }

    /// Takes what is on the screen now, and says what is gone and what came to
    /// the front. `hidden` are the windows that are hidden on purpose.
    pub fn poll_with_snapshot(
        &mut self,
        current_windows: &Vec<(u32, i32)>,
        current_pids: &Vec<i32>,
        current_frontmost_pid: Option<i32>,
        hidden: &Vec<u32>,
    ) -> (r: PollReport)
        ensures
            r.closed@ == vanished(
                old(self).known_windows@,
                windows_of(current_windows@),
                hidden@,
            ),
            r.terminated@ == ended(old(self).known_pids@, each_once(current_pids@)),
            r.frontmost == (if current_frontmost_pid != old(self).known_frontmost_pid {
                current_frontmost_pid
            } else {
                None
            }),
            final(self).known_windows@ == windows_of(current_windows@),
            final(self).known_pids@ == each_once(current_pids@),
            final(self).known_frontmost_pid == current_frontmost_pid,
    {
        let windows = collect_windows(current_windows);
        let pids = collect_numbers(current_pids);
        let closed = self.find_vanished(&windows, hidden);
        let terminated = self.find_ended(&pids);
        let frontmost = if current_frontmost_pid != self.known_frontmost_pid {
            current_frontmost_pid
        } else {
            None
        };
        self.known_windows = windows;
        self.known_pids = pids;
        self.known_frontmost_pid = current_frontmost_pid;
        PollReport { closed, terminated, frontmost }
    }
}

// --- What the looks promise ---

/// Whether no window stands twice in a list.
pub open spec fn listed_once(list: Seq<(u32, i32)>) -> bool {
    forall|i: int, j: int|
        0 <= i < j < list.len() ==> (#[trigger] list[i]).0 != (#[trigger] list[j]).0
}

/// Every window that was seen is known once.
pub proof fn law_windows_known_once(seen: Seq<(u32, i32)>)
    ensures
        listed_once(windows_of(seen)),
        forall|wid: u32| #[trigger] has_window(windows_of(seen), wid) == has_window(seen, wid),
    decreases seen.len(),
{
    if seen.len() > 0 {
        let rest = seen.drop_last();
        let (wid, pid) = seen.last();
        law_windows_known_once(rest);
        let before = windows_of(rest);
        let p = is_window(wid);
        let after = windows_of(seen);
        lemma_first_where_found(before, p);
        assert forall|w: u32| #[trigger] has_window(after, w) == has_window(seen, w) by {
            if has_window(seen, w) {
                let i = choose|i: int| 0 <= i < seen.len() && (#[trigger] seen[i]).0 == w;
                if i < rest.len() {
                    assert(rest[i].0 == w);
                    assert(has_window(before, w));
                    let k = choose|k: int| 0 <= k < before.len() && (#[trigger] before[k]).0 == w;
                    assert(after[k].0 == w);
                } else {
                    match first_where(before, p) {
                        Some(k) => {
                            assert(after[k].0 == w);
                        },
                        None => {
                            assert(after[before.len() as int].0 == w);
                        },
                    }
                }
            }
            if has_window(after, w) {
                let k = choose|k: int| 0 <= k < after.len() && (#[trigger] after[k]).0 == w;
                if w == wid {
                    assert(seen[seen.len() - 1].0 == w);
                } else {
                    assert(before[k].0 == w);
                    assert(has_window(before, w));
                    let i = choose|i: int| 0 <= i < rest.len() && (#[trigger] rest[i]).0 == w;
                    assert(seen[i].0 == w);
                }
            }
        }
        assert forall|i: int, j: int| 0 <= i < j < after.len() implies (#[trigger] after[i]).0 != (
        #[trigger] after[j]).0 by {
            match first_where(before, p) {
                Some(k) => {
                    assert(p(before[k]));
                    assert(before[i].0 == after[i].0 && before[j].0 == after[j].0);
                },
                None => {
                    assert(before[i] == after[i]);
                    assert(!p(before[i]));
                    if j < before.len() {
                        assert(before[j] == after[j]);
                    }
                },
            }
        }
    } else {
        assert forall|wid: u32| #[trigger] has_window(windows_of(seen), wid) == has_window(
            seen,
            wid,
        ) by {}
    }
}

/// A window is reported gone if and only if it was known, is not on the
/// screen and is not hidden on purpose.
pub proof fn law_gone_windows_reported(
    known: Seq<(u32, i32)>,
    current: Seq<(u32, i32)>,
    hidden: Seq<u32>,
)
    ensures
        forall|e: (u32, i32)| #[trigger]
            vanished(known, current, hidden).contains(e) <==> known.contains(e) && !has_window(
                current,
                e.0,
            ) && !hidden.contains(e.0),
        listed_once(known) ==> listed_once(vanished(known, current, hidden)),
    decreases known.len(),
{
    if known.len() > 0 {
        let rest = known.drop_last();
        law_gone_windows_reported(rest, current, hidden);
        let before = vanished(rest, current, hidden);
        let after = vanished(known, current, hidden);
        assert forall|e: (u32, i32)| #[trigger] after.contains(e) <==> known.contains(e)
            && !has_window(current, e.0) && !hidden.contains(e.0) by {
            if after.contains(e) {
                let k = choose|k: int| 0 <= k < after.len() && after[k] == e;
                if k < before.len() {
                    assert(before[k] == e);
                    assert(before.contains(e));
                    let i = choose|i: int| 0 <= i < rest.len() && rest[i] == e;
                    assert(known[i] == e);
                } else {
                    assert(known[known.len() - 1] == e);
                }
            }
            if known.contains(e) && !has_window(current, e.0) && !hidden.contains(e.0) {
                let i = choose|i: int| 0 <= i < known.len() && known[i] == e;
                if i < rest.len() {
                    assert(rest[i] == e);
                    assert(before.contains(e));
                    let k = choose|k: int| 0 <= k < before.len() && before[k] == e;
                    assert(after[k] == e);
                } else {
                    assert(after[before.len() as int] == e);
                }
            }
        }
        if listed_once(known) {
            assert forall|i: int, j: int| 0 <= i < j < rest.len() implies (#[trigger] rest[i]).0
                != (#[trigger] rest[j]).0 by {
                assert(rest[i] == known[i] && rest[j] == known[j]);
            }
            assert forall|i: int, j: int| 0 <= i < j < after.len() implies (#[trigger] after[i]).0
                != (#[trigger] after[j]).0 by {
                assert(before[i] == after[i]);
                if j < before.len() {
                    assert(before[j] == after[j]);
                } else {
                    assert(before.contains(before[i]));
                    let k = choose|k: int| 0 <= k < rest.len() && rest[k] == before[i];
                    assert(known[k] == before[i]);
                    assert(known[known.len() - 1] == after[j]);
                }
            }
        }
    } else {
        assert forall|e: (u32, i32)| #[trigger] vanished(known, current, hidden).contains(
            e,
        ) <==> known.contains(e) && !has_window(current, e.0) && !hidden.contains(e.0) by {}
    }
}

} // verus!
