//! The surfaces that belong to a window.
use vstd::prelude::*;

verus! {

/// Whether numbers grow strictly.
pub open spec fn growing(s: Seq<u32>) -> bool {
    forall|i: int, j: int| 0 <= i < j < s.len() ==> s[i] < s[j]
}

/// Whether a surface belongs to a window: the window itself, or one with a
/// positive number among those that the system reports.
pub open spec fn is_surface(window_id: u32, reported: Seq<i32>, id: u32) -> bool {
    id == window_id || exists|i: int|
        0 <= i < reported.len() && #[trigger] reported[i] > 0 && reported[i] as u32 == id
}

fn insert_number(list: &mut Vec<u32>, n: u32)
    requires
        growing(old(list)@),
    ensures
        growing(final(list)@),
        forall|x: u32| #[trigger] final(list)@.contains(x) == (old(list)@.contains(x) || x == n),
{
    let ghost before = list@;
    let mut at: usize = 0;
    while at < list.len() && list[at] < n
        invariant
            list@ == before,
            growing(before),
            at <= before.len(),
            forall|j: int| 0 <= j < at ==> before[j] < n,
        decreases list.len() - at,
    {
        at = at + 1;
    }
    if at < list.len() && list[at] == n {
        assert(before.contains(n));
        return;
    }
    list.insert(at, n);
    let ghost after = list@;
    assert(growing(after)) by {
        assert forall|i: int, j: int| 0 <= i < j < after.len() implies after[i] < after[j] by {
            let pi = if i < at { i } else { i - 1 };
            let pj = if j < at { j } else { j - 1 };
            if i != at {
                assert(after[i] == before[pi]);
            }
            if j != at {
                assert(after[j] == before[pj]);
            }
            if j > at {
                assert(before[at as int] > n);
                assert(before[pj] >= before[at as int]);
            }
        }
    }
    assert forall|x: u32| #[trigger] after.contains(x) == (before.contains(x) || x == n) by {
        if before.contains(x) {
            let k = choose|k: int| 0 <= k < before.len() && before[k] == x;
            assert(after[if k < at { k } else { k + 1 }] == x);
        }
        assert(after[at as int] == n);
        if after.contains(x) && x != n {
            let k = choose|k: int| 0 <= k < after.len() && after[k] == x;
            assert(before[if k < at { k } else { k - 1 }] == x);
        }
    }
}

/// The surfaces of a window in growing order, each once.
pub fn window_group_ids(window_id: u32, reported: &Vec<i32>) -> (r: Vec<u32>)
    ensures
        growing(r@),
        forall|id: u32| #[trigger] r@.contains(id) == is_surface(window_id, reported@, id),
{
    let mut ids: Vec<u32> = Vec::new();
    ids.push(window_id);
    assert(ids@ =~= seq![window_id]);
    assert(ids@[0] == window_id);
    let mut i: usize = 0;
    while i < reported.len()
        invariant
            i <= reported@.len(),
            growing(ids@),
            forall|id: u32| #[trigger]
                ids@.contains(id) == is_surface(window_id, reported@.take(i as int), id),
        decreases reported.len() - i,
    {
        let n: i32 = reported[i];
        let ghost before = ids@;
        if n > 0 {
            insert_number(&mut ids, n as u32);
        }
        assert forall|id: u32| #[trigger] ids@.contains(id) == is_surface(
            window_id,
            reported@.take(i + 1),
            id,
        ) by {
            let earlier = reported@.take(i as int);
            let now = reported@.take(i + 1);
            assert(before.contains(id) == is_surface(window_id, earlier, id));
            assert(now[i as int] == n);
            if exists|k: int| 0 <= k < earlier.len() && #[trigger] earlier[k] > 0 && earlier[k] as u32
                == id {
                let k = choose|k: int|
                    0 <= k < earlier.len() && #[trigger] earlier[k] > 0 && earlier[k] as u32 == id;
                assert(now[k] == earlier[k]);
            }
            if exists|k: int| 0 <= k < now.len() && #[trigger] now[k] > 0 && now[k] as u32 == id {
                let k = choose|k: int|
                    0 <= k < now.len() && #[trigger] now[k] > 0 && now[k] as u32 == id;
                if k < i {
                    assert(earlier[k] == now[k]);
                }
            }
        }
        i = i + 1;
    }
    assert(reported@.take(reported@.len() as int) =~= reported@);
    ids
}

} // verus!
