//! Edits of the managed rules.
use vstd::prelude::*;
use crate::config::rules::{rule_id_text, Rule, WindowRule};
use crate::seqs::{is_least, least, lemma_least, lemma_least_none};
use crate::text::{
    copy, decimal, digits_value, integer, lemma_decimal_digits, opt_view, same, views, zero_padded,
};
use crate::wm::state::rule_views;

verus! {

/// Tells the rule of an identifier.
pub open spec fn has_rule_id(rules: Seq<Rule>, id: Seq<char>) -> spec_fn(int) -> bool {
    |i: int| rules[i].effective_id(i as nat) == id
}

/// The place of a rule by its identifier.
pub open spec fn rule_place(rules: Seq<Rule>, id: Seq<char>) -> Option<int> {
    least(rules.len() as int, has_rule_id(rules, id))
}

pub fn managed_rule_index(rules: &Vec<WindowRule>, target_id: &str) -> (r: Option<usize>)
    ensures
        match r {
            Some(i) => rule_place(rule_views(rules@), target_id@) == Some(i as int) && i
                < rules@.len(),
            None => rule_place(rule_views(rules@), target_id@) is None,
        },
{
    let ghost all = rule_views(rules@);
    let ghost p = has_rule_id(all, target_id@);
    let n: usize = rules.len();
    let mut i: usize = 0;
    while i < n
        invariant
            n == rules@.len(),
            all == rule_views(rules@),
            p == has_rule_id(all, target_id@),
            i <= n,
            forall|j: int| 0 <= j < i ==> !#[trigger] p(j),
        decreases n - i,
    {
        assert(all[i as int] == rules@[i as int]@);
        let id = rules[i].effective_id(i);
        assert(p(i as int) == (id@ == target_id@));
        if same(id.as_str(), target_id) {
            proof {
                lemma_least(n as int, p, i as int);
            }
            return Some(i);
        }
        i = i + 1;
    }
    proof {
        lemma_least_none(n as int, p);
    }
    None
}

// --- Fresh identifiers ---

/// The identifiers that rules have.
pub open spec fn used_ids(rules: Seq<Rule>) -> Seq<Seq<char>> {
    Seq::new(rules.len(), |i: int| rules[i].effective_id(i as nat))
}

/// The identifier with a number.
pub open spec fn numbered_id(n: nat) -> Seq<char> {
    "rule_"@ + zero_padded(decimal(n), 3)
}

/// Tells numbers whose identifiers are free; the number is one more.
pub open spec fn is_unused(ids: Seq<Seq<char>>) -> spec_fn(int) -> bool {
    |i: int| !ids.contains(numbered_id((i + 1) as nat))
}

/// How many numbers are tried.
pub const TRIED_NUMBERS: usize = 9999;

/// The identifier of a new rule: with the first number from 1 that is free,
/// or, where none of those tried is, with one more than the number of
/// identifiers.
pub open spec fn new_rule_id(rules: Seq<Rule>) -> Seq<char> {
    let ids = used_ids(rules);
    match least(TRIED_NUMBERS as int, is_unused(ids)) {
        Some(i) => numbered_id((i + 1) as nat),
        None => "rule_"@ + decimal(ids.to_set().len() + 1),
    }
}

fn has_text(list: &Vec<String>, s: &str) -> (r: bool)
    ensures
        r == views(list@).contains(s@),
{
    let mut i: usize = 0;
    while i < list.len()
        invariant
            i <= list@.len(),
            forall|j: int| 0 <= j < i ==> (#[trigger] list@[j])@ != s@,
        decreases list.len() - i,
    {
        if same(list[i].as_str(), s) {
            assert(views(list@)[i as int] == s@);
            return true;
        }
        i = i + 1;
    }
    proof {
        if views(list@).contains(s@) {
            let j = choose|j: int| 0 <= j < list@.len() && views(list@)[j] == s@;
            assert(list@[j]@ == s@);
        }
    }
    false
}

/// The identifiers that rules have, each once.
fn list_used_ids(rules: &Vec<WindowRule>) -> (r: Vec<String>)
    ensures
        views(r@).no_duplicates(),
        views(r@).to_set() == used_ids(rule_views(rules@)).to_set(),
        r@.len() <= rules@.len(),
{
    let ghost all = used_ids(rule_views(rules@));
    let n: usize = rules.len();
    let mut ids: Vec<String> = Vec::new();
    let mut i: usize = 0;
    assert(views(ids@).to_set() =~= all.take(0).to_set());
    while i < n
        invariant
            n == rules@.len(),
            all == used_ids(rule_views(rules@)),
            i <= n,
            ids@.len() <= i,
            views(ids@).no_duplicates(),
            views(ids@).to_set() == all.take(i as int).to_set(),
        decreases n - i,
    {
        let ghost before = views(ids@);
        let id: String = rules[i].effective_id(i);
        assert(id@ == all[i as int]);
        let ghost now = all.take(i + 1);
        assert forall|x: Seq<char>| now.contains(x) == (all.take(i as int).contains(x) || x
            == id@) by {
            if now.contains(x) {
                let k = choose|k: int| 0 <= k < now.len() && now[k] == x;
                if k < i {
                    assert(all.take(i as int)[k] == x);
                }
            }
            if all.take(i as int).contains(x) {
                let k = choose|k: int|
                    0 <= k < all.take(i as int).len() && all.take(i as int)[k] == x;
                assert(now[k] == x);
            }
            assert(now[i as int] == id@);
        }
        assert forall|x: Seq<char>| before.contains(x) == all.take(i as int).contains(x) by {
            assert(before.to_set().contains(x) == before.contains(x));
            assert(all.take(i as int).to_set().contains(x) == all.take(i as int).contains(x));
        }
        if !has_text(&ids, id.as_str()) {
            ids.push(id);
            assert(views(ids@) =~= before.push(id@));
            assert forall|x: Seq<char>| views(ids@).contains(x) == (before.contains(x) || x
                == id@) by {
                if before.contains(x) {
                    let k = choose|k: int| 0 <= k < before.len() && before[k] == x;
                    assert(views(ids@)[k] == x);
                }
                assert(views(ids@)[before.len() as int] == id@);
            }
        }
        assert forall|x: Seq<char>| views(ids@).to_set().contains(x) == now.to_set().contains(
            x,
        ) by {
            assert(before.contains(x) == all.take(i as int).contains(x));
            assert(now.contains(x) == (all.take(i as int).contains(x) || x == id@));
            assert(views(ids@).contains(x) == (before.contains(x) || x == id@));
        }
        assert(views(ids@).to_set() =~= now.to_set());
        i = i + 1;
    }
    assert(all.take(all.len() as int) =~= all);
    ids
}

pub fn next_managed_rule_id(rules: &Vec<WindowRule>) -> (r: String)
    ensures
        r@ == new_rule_id(rule_views(rules@)),
{
    let used = list_used_ids(rules);
    let ghost ids = used_ids(rule_views(rules@));
    let ghost p = is_unused(ids);
    assert forall|x: Seq<char>| views(used@).contains(x) == ids.contains(x) by {
        assert(views(used@).to_set().contains(x) == views(used@).contains(x));
        assert(ids.to_set().contains(x) == ids.contains(x));
    }
    let mut i: usize = 0;
    while i < TRIED_NUMBERS
        invariant
            ids == used_ids(rule_views(rules@)),
            p == is_unused(ids),
            forall|x: Seq<char>| views(used@).contains(x) == ids.contains(x),
            i <= TRIED_NUMBERS,
            forall|j: int| 0 <= j < i ==> !#[trigger] p(j),
        decreases TRIED_NUMBERS - i,
    {
        let id = rule_id_text(i + 1);
        assert(id@ == numbered_id((i + 1) as nat));
        assert(p(i as int) == !ids.contains(id@));
        if !has_text(&used, id.as_str()) {
            proof {
                lemma_least(TRIED_NUMBERS as int, p, i as int);
            }
            return id;
        }
        i = i + 1;
    }
    proof {
        lemma_least_none(TRIED_NUMBERS as int, p);
        views(used@).unique_seq_to_set();
    }
    let n: usize = used.len();
    let mut out = copy("rule_");
    out.push_str(integer(n as i128 + 1).as_str());
    out
}

// --- Edits ---

/// A new rule.
pub open spec fn fresh_rule(rules: Seq<Rule>) -> Rule {
    Rule {
        id: Some(new_rule_id(rules)),
        name: Some("New Rule"@),
        enabled: true,
        app_name: None,
        app_bundle: None,
        title: None,
        floating: None,
        workspace: None,
        geometry: None,
    }
}

pub fn default_managed_rule(rules: &Vec<WindowRule>) -> (r: WindowRule)
    ensures
        r@ == fresh_rule(rule_views(rules@)),
{
    WindowRule {
        id: Some(next_managed_rule_id(rules)),
        name: Some(copy("New Rule")),
        enabled: true,
        app_name: None,
        app_bundle: None,
        title: None,
        floating: None,
        workspace: None,
        geometry: None,
    }
}

pub fn add_managed_rule(rules: &mut Vec<WindowRule>) -> (r: String)
    ensures
        rule_views(final(rules)@) == rule_views(old(rules)@).push(
            fresh_rule(rule_views(old(rules)@)),
        ),
        r@ == new_rule_id(rule_views(old(rules)@)),
{
    let rule = default_managed_rule(rules);
    let id = next_managed_rule_id(rules);
    rules.push(rule);
    assert(rule_views(rules@) =~= rule_views(old(rules)@).push(rule@));
    id
}

pub fn duplicate_managed_rule(rules: &mut Vec<WindowRule>, target_id: &str) -> (r: Option<String>)
    ensures
        match rule_place(rule_views(old(rules)@), target_id@) {
            Some(i) => opt_view(r) == Some(new_rule_id(rule_views(old(rules)@))) && rule_views(
                final(rules)@,
            ) == rule_views(old(rules)@).insert(
                i + 1,
                (Rule {
                    id: Some(new_rule_id(rule_views(old(rules)@))),
                    ..rule_views(old(rules)@)[i]
                }),
            ),
            None => r is None && final(rules)@ == old(rules)@,
        },
{
    let n: usize = rules.len();
    match managed_rule_index(rules, target_id) {
        Some(i) => {
            assert(i < n);
            let id = next_managed_rule_id(rules);
            let mut rule = rules[i].clone();
            rule.id = Some(copy(id.as_str()));
            rules.insert(i + 1, rule);
            assert(rule_views(rules@) =~= rule_views(old(rules)@).insert(i + 1, rule@));
            Some(id)
        },
        None => None,
    }
}

pub fn delete_managed_rule(rules: &mut Vec<WindowRule>, target_id: &str) -> (r: bool)
    ensures
        match rule_place(rule_views(old(rules)@), target_id@) {
            Some(i) => r && rule_views(final(rules)@) == rule_views(old(rules)@).remove(i),
            None => !r && final(rules)@ == old(rules)@,
        },
{
    match managed_rule_index(rules, target_id) {
        Some(i) => {
            rules.remove(i);
            assert(rule_views(rules@) =~= rule_views(old(rules)@).remove(i as int));
            true
        },
        None => false,
    }
}

/// Two neighbours in each other's place.
pub open spec fn neighbours_swapped(rules: Seq<Rule>, i: int) -> Seq<Rule> {
    rules.update(i, rules[i + 1]).update(i + 1, rules[i])
}

pub fn move_managed_rule_up(rules: &mut Vec<WindowRule>, target_id: &str) -> (r: bool)
    ensures
        match rule_place(rule_views(old(rules)@), target_id@) {
            Some(i) if i > 0 => r && rule_views(final(rules)@) == neighbours_swapped(
                rule_views(old(rules)@),
                i - 1,
            ),
            _ => !r && final(rules)@ == old(rules)@,
        },
{
    match managed_rule_index(rules, target_id) {
        Some(i) => {
            if i == 0 {
                return false;
            }
            let rule = rules.remove(i);
            rules.insert(i - 1, rule);
            assert(rule_views(rules@) =~= neighbours_swapped(rule_views(old(rules)@), i - 1));
            true
        },
        None => false,
    }
}

pub fn move_managed_rule_down(rules: &mut Vec<WindowRule>, target_id: &str) -> (r: bool)
    ensures
        match rule_place(rule_views(old(rules)@), target_id@) {
            Some(i) if i + 1 < old(rules)@.len() => r && rule_views(final(rules)@)
                == neighbours_swapped(rule_views(old(rules)@), i),
            _ => !r && final(rules)@ == old(rules)@,
        },
{
    let n: usize = rules.len();
    match managed_rule_index(rules, target_id) {
        Some(i) => {
            if i + 1 >= n {
                return false;
            }
            let rule = rules.remove(i);
            rules.insert(i + 1, rule);
            assert(rule_views(rules@) =~= neighbours_swapped(rule_views(old(rules)@), i as int));
            true
        },
        None => false,
    }
}

pub fn replace_managed_rule(
    rules: &mut Vec<WindowRule>,
    target_id: &str,
    replacement: &WindowRule,
) -> (r: bool)
    ensures
        match rule_place(rule_views(old(rules)@), target_id@) {
            Some(i) => r && rule_views(final(rules)@) == rule_views(old(rules)@).update(
                i,
                (Rule { id: Some(target_id@), ..replacement@ }),
            ),
            None => !r && final(rules)@ == old(rules)@,
        },
{
    match managed_rule_index(rules, target_id) {
        Some(i) => {
            let mut rule = replacement.clone();
            rule.id = Some(copy(target_id));
            rules[i] = rule;
            assert(rule_views(rules@) =~= rule_views(old(rules)@).update(i as int, rule@));
            true
        },
        None => false,
    }
}

/// A rule that is switched on or off, under an identifier of its own.
pub open spec fn rule_switched(rule: Rule, id: Seq<char>, enabled: bool) -> Rule {
    Rule {
        id: match rule.id {
            Some(own) => Some(own),
            None => Some(id),
        },
        enabled,
        ..rule
    }
}

pub fn toggle_managed_rule_enabled(
    rules: &mut Vec<WindowRule>,
    target_id: &str,
    enabled: bool,
) -> (r: bool)
    ensures
        match rule_place(rule_views(old(rules)@), target_id@) {
            Some(i) => r && rule_views(final(rules)@) == rule_views(old(rules)@).update(
                i,
                rule_switched(rule_views(old(rules)@)[i], target_id@, enabled),
            ),
            None => !r && final(rules)@ == old(rules)@,
        },
{
    match managed_rule_index(rules, target_id) {
        Some(i) => {
            let mut rule = rules[i].clone();
            if rule.id.is_none() {
                rule.id = Some(copy(target_id));
            }
            rule.enabled = enabled;
            rules[i] = rule;
            assert(rule_views(rules@) =~= rule_views(old(rules)@).update(i as int, rule@));
            true
        },
        None => false,
    }
}

// --- What the edits promise ---

/// Zeros in front change no value.
proof fn lemma_leading_zeros(k: nat, s: Seq<char>)
    ensures
        digits_value(Seq::new(k, |i: int| '0') + s) == digits_value(s),
    decreases s.len(), k,
{
    let zeros = Seq::new(k, |i: int| '0');
    if s.len() > 0 {
        lemma_leading_zeros(k, s.drop_last());
        assert((zeros + s).drop_last() =~= zeros + s.drop_last());
        assert((zeros + s).last() == s.last());
    } else if k > 0 {
        let fewer = Seq::new((k - 1) as nat, |i: int| '0');
        lemma_leading_zeros((k - 1) as nat, s);
        assert(zeros + s =~= zeros);
        assert(fewer + s =~= fewer);
        assert(zeros.drop_last() =~= fewer);
        assert(zeros.last() == '0');
    } else {
        assert(zeros + s =~= s);
    }
}

/// Different numbers give different identifiers.
proof fn lemma_numbered_ids(a: nat, b: nat)
    requires
        numbered_id(a) == numbered_id(b),
    ensures
        a == b,
{
    let x = zero_padded(decimal(a), 3);
    let y = zero_padded(decimal(b), 3);
    let head = "rule_"@;
    assert(numbered_id(a).skip(head.len() as int) =~= x);
    assert(numbered_id(b).skip(head.len() as int) =~= y);
    lemma_decimal_digits(a);
    lemma_decimal_digits(b);
    lemma_leading_zeros((3 - decimal(a).len()) as nat, decimal(a));
    lemma_leading_zeros((3 - decimal(b).len()) as nat, decimal(b));
}

/// A new rule gets an identifier that no rule has.
pub proof fn law_new_rule_id_is_free(rules: Seq<Rule>)
    requires
        rules.len() < TRIED_NUMBERS,
    ensures
        !used_ids(rules).contains(new_rule_id(rules)),
{
    broadcast use vstd::seq_lib::seq_to_set_is_finite;

    let ids = used_ids(rules);
    let p = is_unused(ids);
    let tried = Seq::new(TRIED_NUMBERS as nat, |i: int| numbered_id((i + 1) as nat));
    if least(TRIED_NUMBERS as int, p) is None {
        assert forall|i: int| 0 <= i < TRIED_NUMBERS implies ids.contains(
            #[trigger] numbered_id((i + 1) as nat),
        ) by {
            if p(i) {
                lemma_some_least(TRIED_NUMBERS as int, p, i);
            }
        }
        assert(tried.no_duplicates()) by {
            assert forall|i: int, j: int|
                0 <= i < tried.len() && 0 <= j < tried.len() && i != j implies tried[i]
                != tried[j] by {
                if tried[i] == tried[j] {
                    lemma_numbered_ids((i + 1) as nat, (j + 1) as nat);
                }
            }
        }
        tried.unique_seq_to_set();
        ids.lemma_cardinality_of_set();
        assert(tried.to_set().subset_of(ids.to_set())) by {
            assert forall|x: Seq<char>| tried.to_set().contains(x) implies ids.to_set().contains(
                x,
            ) by {
                let i = choose|i: int| 0 <= i < tried.len() && tried[i] == x;
                assert(ids.contains(numbered_id((i + 1) as nat)));
            }
        }
        vstd::set_lib::lemma_len_subset(tried.to_set(), ids.to_set());
    }
    let i = least(TRIED_NUMBERS as int, p)->0;
    assert(is_least(TRIED_NUMBERS as int, p, i));
    assert(p(i));
}

proof fn lemma_some_least(n: int, p: spec_fn(int) -> bool, i: int)
    requires
        0 <= i < n,
        p(i),
    ensures
        least(n, p) is Some,
    decreases i,
{
    if exists|j: int| 0 <= j < i && #[trigger] p(j) {
        let j = choose|j: int| 0 <= j < i && #[trigger] p(j);
        lemma_some_least(n, p, j);
    } else {
        lemma_least(n, p, i);
    }
}

/// Moving a rule down undoes moving it up.
pub proof fn law_moving_back(rules: Seq<Rule>, i: int)
    requires
        0 <= i < rules.len() - 1,
    ensures
        neighbours_swapped(neighbours_swapped(rules, i), i) == rules,
{
    assert(neighbours_swapped(neighbours_swapped(rules, i), i) =~= rules);
}

/// Switching a rule off and on again leaves it as it was, but for an
/// identifier where it had none.
pub proof fn law_switching_back(rule: Rule, id: Seq<char>)
    ensures
        rule_switched(rule_switched(rule, id, !rule.enabled), id, rule.enabled) == rule_switched(
            rule,
            id,
            rule.enabled,
        ),
        rule.id is Some ==> rule_switched(rule, id, rule.enabled) == rule,
{
}

} // verus!
