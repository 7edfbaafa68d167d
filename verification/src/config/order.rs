//! The orders in which workspaces and overlays are listed.
use vstd::prelude::*;
use crate::config::special::{overlay_views, Overlay, SpecialWorkspaceConfig};
use crate::seqs::{
    in_order, is_order, lemma_sort_slot_range, lemma_sorted_in_order, lemma_sorted_keeps, sort_slot,
    sorted,
};
use crate::text::{
    copy, decimal, lemma_lex_through, lemma_lex_total, lex_less, padded_number, text_less,
    zero_padded,
};
use crate::wm::workspace::{WorkspaceDefinition, WorkspaceId, WsDef, WsId};

verus! {

pub open spec fn def_views(s: Seq<WorkspaceDefinition>) -> Seq<WsDef> {
    Seq::new(s.len(), |i: int| s[i]@)
}

/// How definitions are compared.
#[derive(Clone, Copy, Debug, PartialEq, Eq, Structural)]
pub enum DefOrder {
    /// By the whole name.
    Name,
    /// Numbers before letters before special workspaces.
    Kind,
}

/// The rank of a name by its kind.
pub open spec fn rank_of(id: WsId) -> u8 {
    match id {
        WsId::Numbered(_) => 0,
        WsId::Lettered(_) => 1,
        WsId::Special(_) => 2,
    }
}

/// The text by which names of one kind are compared.
pub open spec fn key_text(id: WsId) -> Seq<char> {
    match id {
        WsId::Numbered(n) => zero_padded(decimal(n as nat), 2),
        WsId::Lettered(c) => seq![c],
        WsId::Special(name) => name,
    }
}

/// What a list is sorted by: the rank of a name and a text.
pub fn workspace_id_sort_key(id: &WorkspaceId) -> (r: (u8, String))
    ensures
        r.0 == rank_of(id@),
        r.1@ == key_text(id@),
{
    match id {
        WorkspaceId::Numbered(n) => (0, padded_number(*n as u64, 2)),
        WorkspaceId::Lettered(c) => {
            let mut s = String::new();
            s.push(*c);
            assert(s@ =~= seq![*c]);
            (1, s)
        },
        WorkspaceId::Special(name) => (2, copy(name.as_str())),
    }
}

/// Whether a name comes after another one.
pub open spec fn id_after(a: WsId, b: WsId, order: DefOrder) -> bool {
    match order {
        DefOrder::Name => lex_less(b.text(), a.text()),
        DefOrder::Kind => rank_of(a) > rank_of(b) || (rank_of(a) == rank_of(b) && lex_less(
            key_text(b),
            key_text(a),
        )),
    }
}

/// Compares definitions.
pub open spec fn def_after(order: DefOrder) -> spec_fn(WsDef, WsDef) -> bool {
    |a: WsDef, b: WsDef| id_after(a.id, b.id, order)
}

fn is_after(a: &WorkspaceId, b: &WorkspaceId, order: DefOrder) -> (r: bool)
    ensures
        r == id_after(a@, b@, order),
{
    match order {
        DefOrder::Name => text_less(b.to_string().as_str(), a.to_string().as_str()),
        DefOrder::Kind => {
            let (ra, ta) = workspace_id_sort_key(a);
            let (rb, tb) = workspace_id_sort_key(b);
            ra > rb || (ra == rb && text_less(tb.as_str(), ta.as_str()))
        },
    }
}

/// Sorts definitions; those of which none comes after the other keep their
/// order.
pub fn sort_defs(defs: Vec<WorkspaceDefinition>, order: DefOrder) -> (r: Vec<WorkspaceDefinition>)
    ensures
        def_views(r@) == sorted(def_views(defs@), def_after(order)),
{
    let ghost gt = def_after(order);
    let ghost all = def_views(defs@);
    let mut rest = defs;
    let mut list: Vec<WorkspaceDefinition> = Vec::new();
    let ghost mut done: int = 0;
    assert(def_views(list@) =~= seq![]);
    assert(all.take(0) =~= seq![]);
    while rest.len() > 0
        invariant
            gt == def_after(order),
            0 <= done <= all.len(),
            def_views(rest@) == all.skip(done),
            def_views(list@) == sorted(all.take(done), gt),
        decreases rest.len(),
    {
        let ghost now = all.take(done + 1);
        let ghost views = def_views(list@);
        proof {
            assert(def_views(rest@).len() == all.skip(done).len());
            assert(now.drop_last() =~= all.take(done));
            assert(def_views(rest@)[0] == all[done]);
        }
        let def = rest.remove(0);
        assert(def@ == now.last());
        assert(def_views(rest@) =~= all.skip(done + 1)) by {
            assert forall|i: int| 0 <= i < rest@.len() implies def_views(rest@)[i] == all.skip(
                done + 1,
            )[i] by {
                assert(all.skip(done)[i + 1] == all[done + 1 + i]);
            }
        }
        let mut slot: usize = list.len();
        assert(views.take(slot as int) =~= views);
        while slot > 0
            invariant_except_break
                gt == def_after(order),
                views == def_views(list@),
                slot <= list@.len(),
                sort_slot(views, gt, def@) == sort_slot(views.take(slot as int), gt, def@),
            ensures
                slot <= list@.len(),
                slot == sort_slot(views, gt, def@),
            decreases slot,
        {
            assert(views.take(slot as int).last() == list@[slot - 1]@);
            if !is_after(&list[slot - 1].id, &def.id, order) {
                break;
            }
            assert(views.take(slot as int).drop_last() =~= views.take(slot - 1));
            slot = slot - 1;
        }
        list.insert(slot, def);
        assert(def_views(list@) =~= views.insert(slot as int, def@));
        proof {
            done = done + 1;
        }
    }
    assert(all.take(done) =~= all);
    list
}

/// Of neighbours with the same name the first stays.
pub open spec fn deduped(s: Seq<WsDef>) -> Seq<WsDef>
    decreases s.len(),
{
    if s.len() == 0 {
        seq![]
    } else {
        let before = deduped(s.drop_last());
        if before.len() > 0 && before.last().id == s.last().id {
            before
        } else {
            before.push(s.last())
        }
    }
}

/// Definitions in order, each name once.
pub open spec fn ordered_defs(s: Seq<WsDef>, order: DefOrder) -> Seq<WsDef> {
    deduped(sorted(s, def_after(order)))
}

pub fn dedup_defs(defs: Vec<WorkspaceDefinition>) -> (r: Vec<WorkspaceDefinition>)
    ensures
        def_views(r@) == deduped(def_views(defs@)),
{
    let ghost all = def_views(defs@);
    let mut list: Vec<WorkspaceDefinition> = Vec::new();
    let mut i: usize = 0;
    assert(def_views(list@) =~= deduped(all.take(0)));
    while i < defs.len()
        invariant
            all == def_views(defs@),
            i <= defs@.len(),
            def_views(list@) == deduped(all.take(i as int)),
        decreases defs.len() - i,
    {
        let ghost views = def_views(list@);
        proof {
            assert(all.take(i + 1).drop_last() =~= all.take(i as int));
            assert(all.take(i + 1).last() == defs@[i as int]@);
        }
        let n: usize = list.len();
        let repeated: bool = n > 0 && list[n - 1].id.is(&defs[i].id);
        assert(n > 0 ==> views.last() == list@[n - 1]@);
        if !repeated {
            list.push(defs[i].clone());
            assert(def_views(list@) =~= views.push(defs@[i as int]@));
        }
        i = i + 1;
    }
    assert(all.take(all.len() as int) =~= all);
    list
}

/// Compares overlays by their names.
pub open spec fn overlay_after() -> spec_fn(Overlay, Overlay) -> bool {
    |a: Overlay, b: Overlay| lex_less(b.name, a.name)
}

/// Sorts overlays by their names.
pub fn sort_specials(specials: Vec<SpecialWorkspaceConfig>) -> (r: Vec<SpecialWorkspaceConfig>)
    ensures
        overlay_views(r@) == sorted(overlay_views(specials@), overlay_after()),
{
    let ghost gt = overlay_after();
    let ghost all = overlay_views(specials@);
    let mut rest = specials;
    let mut list: Vec<SpecialWorkspaceConfig> = Vec::new();
    let ghost mut done: int = 0;
    assert(overlay_views(list@) =~= seq![]);
    assert(all.take(0) =~= seq![]);
    while rest.len() > 0
        invariant
            gt == overlay_after(),
            0 <= done <= all.len(),
            overlay_views(rest@) == all.skip(done),
            overlay_views(list@) == sorted(all.take(done), gt),
        decreases rest.len(),
    {
        let ghost now = all.take(done + 1);
        let ghost views = overlay_views(list@);
        proof {
            assert(overlay_views(rest@).len() == all.skip(done).len());
            assert(now.drop_last() =~= all.take(done));
            assert(overlay_views(rest@)[0] == all[done]);
        }
        let special = rest.remove(0);
        assert(special@ == now.last());
        assert(overlay_views(rest@) =~= all.skip(done + 1)) by {
            assert forall|i: int| 0 <= i < rest@.len() implies overlay_views(rest@)[i] == all.skip(
                done + 1,
            )[i] by {
                assert(all.skip(done)[i + 1] == all[done + 1 + i]);
            }
        }
        let mut slot: usize = list.len();
        assert(views.take(slot as int) =~= views);
        while slot > 0
            invariant_except_break
                gt == overlay_after(),
                views == overlay_views(list@),
                slot <= list@.len(),
                sort_slot(views, gt, special@) == sort_slot(
                    views.take(slot as int),
                    gt,
                    special@,
                ),
            ensures
                slot <= list@.len(),
                slot == sort_slot(views, gt, special@),
            decreases slot,
        {
            assert(views.take(slot as int).last() == list@[slot - 1]@);
            if !text_less(special.name.as_str(), list[slot - 1].name.as_str()) {
                break;
            }
            assert(views.take(slot as int).drop_last() =~= views.take(slot - 1));
            slot = slot - 1;
        }
        list.insert(slot, special);
        assert(overlay_views(list@) =~= views.insert(slot as int, special@));
        proof {
            done = done + 1;
        }
    }
    assert(all.take(done) =~= all);
    list
}

// --- What the orders give ---

proof fn lemma_def_order(order: DefOrder)
    ensures
        is_order(def_after(order)),
{
    let gt = def_after(order);
    assert forall|a: WsDef, b: WsDef| #[trigger] gt(a, b) implies !gt(b, a) by {
        lemma_lex_total(b.id.text(), a.id.text());
        lemma_lex_total(key_text(b.id), key_text(a.id));
    }
    assert forall|a: WsDef, b: WsDef, c: WsDef|
        !(#[trigger] gt(a, b)) && !(#[trigger] gt(b, c)) implies !gt(a, c) by {
        if order is Name {
            lemma_lex_through(c.id.text(), b.id.text(), a.id.text());
        } else if rank_of(a.id) == rank_of(b.id) && rank_of(b.id) == rank_of(c.id) {
            lemma_lex_through(key_text(c.id), key_text(b.id), key_text(a.id));
        }
    }
}

proof fn lemma_overlay_order()
    ensures
        is_order(overlay_after()),
{
    let gt = overlay_after();
    assert forall|a: Overlay, b: Overlay| #[trigger] gt(a, b) implies !gt(b, a) by {
        lemma_lex_total(b.name, a.name);
    }
    assert forall|a: Overlay, b: Overlay, c: Overlay|
        !(#[trigger] gt(a, b)) && !(#[trigger] gt(b, c)) implies !gt(a, c) by {
        lemma_lex_through(c.name, b.name, a.name);
    }
}

/// Whether every workspace is defined once.
pub open spec fn defined_once(defs: Seq<WsDef>) -> bool {
    forall|i: int, j: int|
        0 <= i < j < defs.len() ==> (#[trigger] defs[i]).id != (#[trigger] defs[j]).id
}

proof fn lemma_deduped_once(s: Seq<WsDef>)
    requires
        defined_once(s),
    ensures
        deduped(s) == s,
    decreases s.len(),
{
    if s.len() > 0 {
        let before = s.drop_last();
        assert forall|i: int, j: int| 0 <= i < j < before.len() implies (#[trigger] before[i]).id
            != (#[trigger] before[j]).id by {
            assert(before[i] == s[i] && before[j] == s[j]);
        }
        lemma_deduped_once(before);
        if before.len() > 0 {
            assert(before.last() == s[s.len() - 2]);
            assert(s.last() == s[s.len() - 1]);
        }
        assert(before.push(s.last()) =~= s);
    } else {
        assert(deduped(s) =~= s);
    }
}

/// Sorting keeps that every workspace is defined once.
pub proof fn lemma_sorted_once(s: Seq<WsDef>, gt: spec_fn(WsDef, WsDef) -> bool)
    requires
        defined_once(s),
    ensures
        defined_once(sorted(s, gt)),
        forall|d: WsDef| #[trigger] sorted(s, gt).contains(d) == s.contains(d),
    decreases s.len(),
{
    if s.len() > 0 {
        let rest = s.drop_last();
        let x = s.last();
        assert forall|i: int, j: int| 0 <= i < j < rest.len() implies (#[trigger] rest[i]).id != (
        #[trigger] rest[j]).id by {
            assert(rest[i] == s[i] && rest[j] == s[j]);
        }
        lemma_sorted_once(rest, gt);
        let before = sorted(rest, gt);
        lemma_sort_slot_range(before, gt, x);
        let at = sort_slot(before, gt, x);
        let after = before.insert(at, x);
        assert forall|d: WsDef| #[trigger] after.contains(d) == s.contains(d) by {
            if after.contains(d) {
                let k = choose|k: int| 0 <= k < after.len() && after[k] == d;
                if k == at {
                    assert(s[s.len() - 1] == d);
                } else {
                    let p = if k < at { k } else { k - 1 };
                    assert(before[p] == d);
                    assert(before.contains(d));
                    let q = choose|q: int| 0 <= q < rest.len() && rest[q] == d;
                    assert(s[q] == d);
                }
            }
            if s.contains(d) {
                let k = choose|k: int| 0 <= k < s.len() && s[k] == d;
                if k == s.len() - 1 {
                    assert(after[at] == d);
                } else {
                    assert(rest[k] == d);
                    assert(before.contains(d));
                    let q = choose|q: int| 0 <= q < before.len() && before[q] == d;
                    assert(after[if q < at { q } else { q + 1 }] == d);
                }
            }
        }
        assert forall|i: int, j: int| 0 <= i < j < after.len() implies (#[trigger] after[i]).id != (
        #[trigger] after[j]).id by {
            let pi = if i < at { i } else { i - 1 };
            let pj = if j < at { j } else { j - 1 };
            if i != at && j != at {
                assert(after[i] == before[pi] && after[j] == before[pj]);
            } else {
                let p = if i == at { pj } else { pi };
                assert(before.contains(before[p]));
                let q = choose|q: int| 0 <= q < rest.len() && rest[q] == before[p];
                assert(s[q] == before[p] && s[s.len() - 1] == x);
            }
        }
    } else {
        assert(sorted(s, gt) =~= s);
    }
}

/// Definitions are listed in order: numbers before letters before special
/// workspaces where they go by kind, and none is lost or doubled.
pub proof fn law_definitions_in_order(defs: Seq<WsDef>, order: DefOrder)
    requires
        defined_once(defs),
    ensures
        in_order(ordered_defs(defs, order), def_after(order)),
        defined_once(ordered_defs(defs, order)),
        forall|d: WsDef| #[trigger] ordered_defs(defs, order).contains(d) == defs.contains(d),
        order is Kind ==> forall|i: int, j: int|
            0 <= i < j < ordered_defs(defs, order).len() ==> rank_of(
                (#[trigger] ordered_defs(defs, order)[i]).id,
            ) <= rank_of((#[trigger] ordered_defs(defs, order)[j]).id),
{
    let gt = def_after(order);
    lemma_def_order(order);
    lemma_sorted_in_order(defs, gt);
    lemma_sorted_once(defs, gt);
    lemma_deduped_once(sorted(defs, gt));
}

/// Overlays are listed by their names, and none is lost or doubled.
pub proof fn law_overlays_in_order(overlays: Seq<Overlay>)
    ensures
        in_order(sorted(overlays, overlay_after()), overlay_after()),
        sorted(overlays, overlay_after()).to_multiset() == overlays.to_multiset(),
{
    lemma_overlay_order();
    lemma_sorted_in_order(overlays, overlay_after());
    lemma_sorted_keeps(overlays, overlay_after());
}

} // verus!
