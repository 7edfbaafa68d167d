//! Small facts about sequences that several modules share.
use vstd::prelude::*;

verus! {

/// `i` is the first place at which `s` holds `x`.
pub open spec fn is_first_index<T>(s: Seq<T>, x: T, i: int) -> bool {
    &&& 0 <= i < s.len()
    &&& s[i] == x
    &&& forall|j: int| 0 <= j < i ==> s[j] != x
}

/// The first place at which `s` holds `x`, if it holds it at all.
pub open spec fn position<T>(s: Seq<T>, x: T) -> Option<int> {
    if s.contains(x) {
        Some(choose|i: int| is_first_index(s, x, i))
    } else {
        None
    }
}

/// The first place is unique, so `position` finds it.
pub proof fn lemma_position<T>(s: Seq<T>, x: T, i: int)
    requires
        is_first_index(s, x, i),
    ensures
        position(s, x) == Some(i),
        s.contains(x),
{
    assert(s.contains(x));
    let k = choose|k: int| is_first_index(s, x, k);
    assert(is_first_index(s, x, k));
    if k < i {
        assert(s[k] != x);
    } else if i < k {
        assert(s[i] != x);
    }
}

/// A value that occurs has a first place.
pub proof fn lemma_position_exists<T>(s: Seq<T>, x: T)
    requires
        s.contains(x),
    ensures
        position(s, x) is Some,
        is_first_index(s, x, position(s, x)->0),
    decreases s.len(),
{
    let t = s.drop_last();
    if t.contains(x) {
        lemma_position_exists(t, x);
        let i = position(t, x)->0;
        assert(s[i] == t[i]);
        assert forall|j: int| 0 <= j < i implies s[j] != x by {
            assert(s[j] == t[j]);
        }
        lemma_position(s, x, i);
    } else {
        let i = s.len() - 1;
        assert(s[i] == x) by {
            let k = choose|k: int| 0 <= k < s.len() && s[k] == x;
            if k < i {
                assert(t[k] == x);
            }
        }
        assert forall|j: int| 0 <= j < i implies s[j] != x by {
            if s[j] == x {
                assert(t[j] == x);
            }
        }
        lemma_position(s, x, i);
    }
}

/// Finds the first place of `x` in `v`.
pub fn position_u32(v: &Vec<u32>, x: u32) -> (r: Option<usize>)
    ensures
        r is Some == v@.contains(x),
        match r {
            Some(i) => is_first_index(v@, x, i as int) && position(v@, x) == Some(i as int),
            None => position(v@, x) == None::<int>,
        },
{
    let mut i: usize = 0;
    while i < v.len()
        invariant
            i <= v.len(),
            forall|j: int| 0 <= j < i ==> v@[j] != x,
        decreases v.len() - i,
    {
        if v[i] == x {
            proof {
                lemma_position(v@, x, i as int);
            }
            return Some(i);
        }
        i = i + 1;
    }
    None
}

/// `i` is the first place whose value has property `p`.
pub open spec fn is_first_where<T>(s: Seq<T>, p: spec_fn(T) -> bool, i: int) -> bool {
    &&& 0 <= i < s.len()
    &&& p(s[i])
    &&& forall|j: int| 0 <= j < i ==> !p(#[trigger] s[j])
}

/// The first place whose value has property `p`.
pub open spec fn first_where<T>(s: Seq<T>, p: spec_fn(T) -> bool) -> Option<int> {
    if exists|i: int| is_first_where(s, p, i) {
        Some(choose|i: int| is_first_where(s, p, i))
    } else {
        None
    }
}

/// The first place is unique, so `first_where` finds it.
pub proof fn lemma_first_where<T>(s: Seq<T>, p: spec_fn(T) -> bool, i: int)
    requires
        is_first_where(s, p, i),
    ensures
        first_where(s, p) == Some(i),
{
    let k = choose|k: int| is_first_where(s, p, k);
    assert(is_first_where(s, p, k));
    if k < i {
        assert(!p(s[k]));
    } else if i < k {
        assert(!p(s[i]));
    }
}

/// Where no value has the property, nothing is found.
pub proof fn lemma_first_where_none<T>(s: Seq<T>, p: spec_fn(T) -> bool)
    requires
        forall|j: int| 0 <= j < s.len() ==> !p(#[trigger] s[j]),
    ensures
        first_where(s, p) is None,
{
}

/// What is found is a first place; where nothing is found, no value has the
/// property.
pub proof fn lemma_first_where_found<T>(s: Seq<T>, p: spec_fn(T) -> bool)
    ensures
        match first_where(s, p) {
            Some(i) => is_first_where(s, p, i),
            None => forall|j: int| 0 <= j < s.len() ==> !p(#[trigger] s[j]),
        },
{
    if first_where(s, p) is None {
        assert forall|j: int| 0 <= j < s.len() implies !p(#[trigger] s[j]) by {
            if p(s[j]) {
                lemma_some_first_where(s, p, j);
            }
        }
    }
}

proof fn lemma_some_first_where<T>(s: Seq<T>, p: spec_fn(T) -> bool, j: int)
    requires
        0 <= j < s.len(),
        p(s[j]),
    ensures
        exists|i: int| is_first_where(s, p, i),
    decreases j,
{
    if exists|k: int| 0 <= k < j && p(#[trigger] s[k]) {
        let k = choose|k: int| 0 <= k < j && p(#[trigger] s[k]);
        lemma_some_first_where(s, p, k);
    } else {
        assert(is_first_where(s, p, j));
    }
}

/// `i` is the last place whose value has property `p`.
pub open spec fn is_last_where<T>(s: Seq<T>, p: spec_fn(T) -> bool, i: int) -> bool {
    &&& 0 <= i < s.len()
    &&& p(s[i])
    &&& forall|j: int| i < j < s.len() ==> !p(#[trigger] s[j])
}

/// The last place whose value has property `p`.
pub open spec fn last_where<T>(s: Seq<T>, p: spec_fn(T) -> bool) -> Option<int> {
    if exists|i: int| is_last_where(s, p, i) {
        Some(choose|i: int| is_last_where(s, p, i))
    } else {
        None
    }
}

/// The last place is unique, so `last_where` finds it.
pub proof fn lemma_last_where<T>(s: Seq<T>, p: spec_fn(T) -> bool, i: int)
    requires
        is_last_where(s, p, i),
    ensures
        last_where(s, p) == Some(i),
{
    let k = choose|k: int| is_last_where(s, p, k);
    assert(is_last_where(s, p, k));
    if k > i {
        assert(!p(s[k]));
    } else if i > k {
        assert(!p(s[i]));
    }
}

/// The last place once one value more is there.
pub proof fn lemma_last_where_push<T>(s: Seq<T>, p: spec_fn(T) -> bool, x: T)
    ensures
        last_where(s.push(x), p) == if p(x) {
            Some(s.len() as int)
        } else {
            last_where(s, p)
        },
        last_where(s, p) is Some ==> 0 <= last_where(s, p)->0 < s.len(),
{
    let t = s.push(x);
    if p(x) {
        assert(t[s.len() as int] == x);
        lemma_last_where(t, p, s.len() as int);
    } else {
        assert forall|i: int| is_last_where(t, p, i) <==> is_last_where(s, p, i) by {
            if is_last_where(t, p, i) {
                assert(t[s.len() as int] == x);
                assert(t[i] == s[i]);
                assert forall|j: int| i < j < s.len() implies !p(#[trigger] s[j]) by {
                    assert(t[j] == s[j]);
                }
            }
            if is_last_where(s, p, i) {
                assert(t[i] == s[i]);
                assert forall|j: int| i < j < t.len() implies !p(#[trigger] t[j]) by {
                    if j < s.len() {
                        assert(t[j] == s[j]);
                    }
                }
            }
        }
        if exists|i: int| is_last_where(s, p, i) {
            let i = choose|i: int| is_last_where(s, p, i);
            lemma_last_where(s, p, i);
            lemma_last_where(t, p, i);
        }
    }
}

/// Tells the values other than `x`.
pub open spec fn differs_from<T>(x: T) -> spec_fn(T) -> bool {
    |y: T| y != x
}

/// The values of `s` other than `x`, in order.
pub open spec fn without<T>(s: Seq<T>, x: T) -> Seq<T> {
    s.filter(differs_from(x))
}

/// A copy of a vector of window numbers without `x`.
pub fn remove_all_u32(v: &Vec<u32>, x: u32) -> (r: Vec<u32>)
    ensures
        r@ == without(v@, x),
{
    let mut r: Vec<u32> = Vec::new();
    let mut i: usize = 0;
    let ghost keep = differs_from(x);
    while i < v.len()
        invariant
            i <= v@.len(),
            keep == differs_from(x),
            r@ == v@.take(i as int).filter(keep),
        decreases v.len() - i,
    {
        proof {
            assert(v@.take(i + 1).drop_last() =~= v@.take(i as int));
            reveal(Seq::filter);
        }
        if v[i] != x {
            r.push(v[i]);
        }
        i = i + 1;
    }
    assert(v@.take(v@.len() as int) =~= v@);
    r
}

/// Where `x` goes in a list in order: behind every value that is not greater.
pub open spec fn sort_slot<T>(s: Seq<T>, gt: spec_fn(T, T) -> bool, x: T) -> int
    decreases s.len(),
{
    if s.len() == 0 {
        0
    } else if gt(s.last(), x) {
        sort_slot(s.drop_last(), gt, x)
    } else {
        s.len() as int
    }
}

/// The values in order; values of which none is greater keep their order.
pub open spec fn sorted<T>(s: Seq<T>, gt: spec_fn(T, T) -> bool) -> Seq<T>
    decreases s.len(),
{
    if s.len() == 0 {
        seq![]
    } else {
        let before = sorted(s.drop_last(), gt);
        before.insert(sort_slot(before, gt, s.last()), s.last())
    }
}

/// A slot lies within the list.
pub proof fn lemma_sort_slot_range<T>(s: Seq<T>, gt: spec_fn(T, T) -> bool, x: T)
    ensures
        0 <= sort_slot(s, gt, x) <= s.len(),
    decreases s.len(),
{
    if s.len() > 0 && gt(s.last(), x) {
        lemma_sort_slot_range(s.drop_last(), gt, x);
    }
}

/// Sorting keeps the values, each as often.
pub proof fn lemma_sorted_keeps<T>(s: Seq<T>, gt: spec_fn(T, T) -> bool)
    ensures
        sorted(s, gt).to_multiset() == s.to_multiset(),
        sorted(s, gt).len() == s.len(),
    decreases s.len(),
{
    broadcast use vstd::multiset::group_multiset_axioms;
    broadcast use vstd::seq_lib::group_to_multiset_ensures;

    if s.len() == 0 {
        assert(s =~= seq![]);
    } else {
        lemma_sorted_keeps(s.drop_last(), gt);
        let before = sorted(s.drop_last(), gt);
        lemma_sort_slot_range(before, gt, s.last());
        assert(s =~= s.drop_last().push(s.last()));
    }
}

/// Whether a relation tells which of two values is greater, as a sorted list
/// needs it.
pub open spec fn is_order<T>(gt: spec_fn(T, T) -> bool) -> bool {
    &&& forall|a: T, b: T| #[trigger] gt(a, b) ==> !gt(b, a)
    &&& forall|a: T, b: T, c: T|
        !(#[trigger] gt(a, b)) && !(#[trigger] gt(b, c)) ==> !gt(a, c)
}

/// Whether no value stands before a smaller one.
pub open spec fn in_order<T>(s: Seq<T>, gt: spec_fn(T, T) -> bool) -> bool {
    forall|i: int, j: int| 0 <= i < j < s.len() ==> !gt(#[trigger] s[i], #[trigger] s[j])
}

/// Sorting puts the values in order.
pub proof fn lemma_sorted_in_order<T>(s: Seq<T>, gt: spec_fn(T, T) -> bool)
    requires
        is_order(gt),
    ensures
        in_order(sorted(s, gt), gt),
    decreases s.len(),
{
    if s.len() > 0 {
        let before = sorted(s.drop_last(), gt);
        let x = s.last();
        lemma_sorted_in_order(s.drop_last(), gt);
        lemma_slot_in_order(before, gt, x);
        let at = sort_slot(before, gt, x);
        let after = before.insert(at, x);
        assert forall|i: int, j: int| 0 <= i < j < after.len() implies !gt(
            #[trigger] after[i],
            #[trigger] after[j],
        ) by {
            let pi = if i < at { i } else { i - 1 };
            let pj = if j < at { j } else { j - 1 };
            if i != at {
                assert(after[i] == before[pi]);
            }
            if j != at {
                assert(after[j] == before[pj]);
            }
        }
    }
}

proof fn lemma_slot_in_order<T>(s: Seq<T>, gt: spec_fn(T, T) -> bool, x: T)
    requires
        is_order(gt),
        in_order(s, gt),
    ensures
        0 <= sort_slot(s, gt, x) <= s.len(),
        forall|i: int| 0 <= i < sort_slot(s, gt, x) ==> !gt(#[trigger] s[i], x),
        forall|i: int| sort_slot(s, gt, x) <= i < s.len() ==> !gt(x, #[trigger] s[i]),
    decreases s.len(),
{
    if s.len() > 0 {
        let rest = s.drop_last();
        assert forall|i: int, j: int| 0 <= i < j < rest.len() implies !gt(
            #[trigger] rest[i],
            #[trigger] rest[j],
        ) by {
            assert(rest[i] == s[i] && rest[j] == s[j]);
        }
        lemma_slot_in_order(rest, gt, x);
        let at = sort_slot(s, gt, x);
        assert(s[s.len() - 1] == s.last());
        assert forall|i: int| 0 <= i < at implies !gt(#[trigger] s[i], x) by {
            if i < rest.len() {
                assert(rest[i] == s[i]);
                if !gt(s.last(), x) {
                    assert(!gt(s[i], s[s.len() - 1]));
                }
            }
        }
        assert forall|i: int| at <= i < s.len() implies !gt(x, #[trigger] s[i]) by {
            if i < rest.len() {
                assert(rest[i] == s[i]);
            }
        }
    }
}

/// Compares by a key.
pub open spec fn greater_key<T>(key: spec_fn(T) -> int) -> spec_fn(T, T) -> bool {
    |a: T, b: T| key(a) > key(b)
}

/// A copy of a vector of window numbers.
pub fn copy_u32(v: &Vec<u32>) -> (r: Vec<u32>)
    ensures
        r@ == v@,
{
    let mut r: Vec<u32> = Vec::new();
    let mut i: usize = 0;
    while i < v.len()
        invariant
            i <= v.len(),
            r@ == v@.take(i as int),
        decreases v.len() - i,
    {
        r.push(v[i]);
        i = i + 1;
        assert(r@ == v@.take(i as int));
    }
    assert(v@.take(v@.len() as int) == v@);
    r
}

/// `i` is the least number below `n` with property `p`.
pub open spec fn is_least(n: int, p: spec_fn(int) -> bool, i: int) -> bool {
    &&& 0 <= i < n
    &&& p(i)
    &&& forall|j: int| 0 <= j < i ==> !#[trigger] p(j)
}

/// The least number below `n` with property `p`.
pub open spec fn least(n: int, p: spec_fn(int) -> bool) -> Option<int> {
    if exists|i: int| is_least(n, p, i) {
        Some(choose|i: int| is_least(n, p, i))
    } else {
        None
    }
}

/// The least number is unique, so `least` finds it.
pub proof fn lemma_least(n: int, p: spec_fn(int) -> bool, i: int)
    requires
        is_least(n, p, i),
    ensures
        least(n, p) == Some(i),
{
    let k = choose|k: int| is_least(n, p, k);
    assert(is_least(n, p, k));
    if k < i {
        assert(!p(k));
    } else if i < k {
        assert(!p(i));
    }
}

/// Where no number has the property, nothing is found.
pub proof fn lemma_least_none(n: int, p: spec_fn(int) -> bool)
    requires
        forall|j: int| 0 <= j < n ==> !#[trigger] p(j),
    ensures
        least(n, p) is None,
{
    if exists|i: int| is_least(n, p, i) {
        let i = choose|i: int| is_least(n, p, i);
        assert(!p(i));
    }
}

/// The values that another sequence lacks, in their order.
pub open spec fn left_out<T>(s: Seq<T>, owned: Seq<T>) -> Seq<T>
    decreases s.len(),
{
    if s.len() == 0 {
        seq![]
    } else {
        let before = left_out(s.drop_last(), owned);
        if owned.contains(s.last()) {
            before
        } else {
            before.push(s.last())
        }
    }
}

} // verus!
