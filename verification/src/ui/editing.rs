//! Edits of the managed part, and which row is selected before and after.
use vstd::prelude::*;
use crate::config::keybinds::{bind_views, LuaKeybind};
use crate::config::rows::{
    bind_row_views, rule_entries, ws_row_views, BindRow, KeybindRow, RuleEntry, RuleRow,
    WorkspaceRow, WsRow,
};
use crate::seqs::{first_where, lemma_first_where, lemma_first_where_found, lemma_first_where_none};
use crate::text::{
    after_prefix, copy, decimal, law_number_round_trip, number, opt_view, parse_number,
    parsed_number, same, starts_with, strip_prefix,
};
use crate::wm::input::{Act, Action, Bind, Key, Modifiers, SHIFT_BIT};
use crate::wm::workspace::WorkspaceKind;

verus! {

// --- Selection ---

/// What selection goes by: the identifier of a row and whether it can be
/// edited.
pub type Mark = (String, bool);

pub open spec fn mark_views(s: Seq<Mark>) -> Seq<(Seq<char>, bool)> {
    Seq::new(s.len(), |i: int| (s[i].0@, s[i].1))
}

pub open spec fn bind_marks(rows: Seq<BindRow>) -> Seq<(Seq<char>, bool)> {
    Seq::new(rows.len(), |i: int| (rows[i].id, rows[i].editable))
}

pub open spec fn rule_marks(rows: Seq<RuleEntry>) -> Seq<(Seq<char>, bool)> {
    Seq::new(rows.len(), |i: int| (rows[i].id, rows[i].editable))
}

pub open spec fn ws_marks(rows: Seq<WsRow>) -> Seq<(Seq<char>, bool)> {
    Seq::new(rows.len(), |i: int| (rows[i].id, rows[i].editable))
}

pub open spec fn is_marked(id: Seq<char>) -> spec_fn((Seq<char>, bool)) -> bool {
    |m: (Seq<char>, bool)| m.0 == id
}

pub open spec fn is_editable() -> spec_fn((Seq<char>, bool)) -> bool {
    |m: (Seq<char>, bool)| m.1
}

/// The row to select: the preferred one if it is there, or else the first
/// that can be edited, or else the first.
pub open spec fn selected(marks: Seq<(Seq<char>, bool)>, preferred: Option<Seq<char>>) -> Option<
    Seq<char>,
> {
    let wished = match preferred {
        Some(id) => first_where(marks, is_marked(id)),
        None => None,
    };
    match wished {
        Some(i) => Some(marks[i].0),
        None => match first_where(marks, is_editable()) {
            Some(i) => Some(marks[i].0),
            None => if marks.len() > 0 {
                Some(marks[0].0)
            } else {
                None
            },
        },
    }
}

/// The row to select once another is gone: the next, or else the one before.
pub open spec fn fallback(marks: Seq<(Seq<char>, bool)>, deleted: Seq<char>) -> Option<Seq<char>> {
    match first_where(marks, is_marked(deleted)) {
        Some(i) => if i + 1 < marks.len() {
            Some(marks[i + 1].0)
        } else if i > 0 {
            Some(marks[i - 1].0)
        } else {
            None
        },
        None => None,
    }
}

pub open spec fn opt_text(s: Option<&str>) -> Option<Seq<char>> {
    match s {
        Some(s) => Some(s@),
        None => None,
    }
}

fn find_mark(marks: &Vec<Mark>, id: &str) -> (r: Option<usize>)
    ensures
        match r {
            Some(i) => i < marks@.len() && first_where(mark_views(marks@), is_marked(id@)) == Some(
                i as int,
            ),
            None => first_where(mark_views(marks@), is_marked(id@)) is None,
        },
{
    let ghost all = mark_views(marks@);
    let ghost p = is_marked(id@);
    let mut i: usize = 0;
    while i < marks.len()
        invariant
            all == mark_views(marks@),
            p == is_marked(id@),
            i <= marks@.len(),
            forall|j: int| 0 <= j < i ==> !p(#[trigger] all[j]),
        decreases marks.len() - i,
    {
        if same(marks[i].0.as_str(), id) {
            proof {
                lemma_first_where(all, p, i as int);
            }
            return Some(i);
        }
        assert(!p(all[i as int]));
        i = i + 1;
    }
    proof {
        lemma_first_where_none(all, p);
    }
    None
}

fn find_editable(marks: &Vec<Mark>) -> (r: Option<usize>)
    ensures
        match r {
            Some(i) => i < marks@.len() && first_where(mark_views(marks@), is_editable()) == Some(
                i as int,
            ),
            None => first_where(mark_views(marks@), is_editable()) is None,
        },
{
    let ghost all = mark_views(marks@);
    let ghost p = is_editable();
    let mut i: usize = 0;
    while i < marks.len()
        invariant
            all == mark_views(marks@),
            p == is_editable(),
            i <= marks@.len(),
            forall|j: int| 0 <= j < i ==> !p(#[trigger] all[j]),
        decreases marks.len() - i,
    {
        if marks[i].1 {
            proof {
                lemma_first_where(all, p, i as int);
            }
            return Some(i);
        }
        assert(!p(all[i as int]));
        i = i + 1;
    }
    proof {
        lemma_first_where_none(all, p);
    }
    None
}

fn select_mark(marks: &Vec<Mark>, preferred: Option<&str>) -> (r: Option<String>)
    ensures
        opt_view(r) == selected(mark_views(marks@), opt_text(preferred)),
{
    if let Some(id) = preferred {
        if let Some(i) = find_mark(marks, id) {
            return Some(copy(marks[i].0.as_str()));
        }
    }
    match find_editable(marks) {
        Some(i) => Some(copy(marks[i].0.as_str())),
        None => if marks.len() > 0 {
            Some(copy(marks[0].0.as_str()))
        } else {
            None
        },
    }
}

fn fall_back(marks: &Vec<Mark>, deleted: &str) -> (r: Option<String>)
    ensures
        opt_view(r) == fallback(mark_views(marks@), deleted@),
{
    let n: usize = marks.len();
    match find_mark(marks, deleted) {
        Some(i) => if i + 1 < n {
            Some(copy(marks[i + 1].0.as_str()))
        } else if i > 0 {
            Some(copy(marks[i - 1].0.as_str()))
        } else {
            None
        },
        None => None,
    }
}

fn marks_of_binds(rows: &Vec<KeybindRow>) -> (r: Vec<Mark>)
    ensures
        mark_views(r@) == bind_marks(bind_row_views(rows@)),
{
    let ghost all = bind_marks(bind_row_views(rows@));
    let mut marks: Vec<Mark> = Vec::new();
    let mut i: usize = 0;
    while i < rows.len()
        invariant
            all == bind_marks(bind_row_views(rows@)),
            i <= rows@.len(),
            mark_views(marks@) == all.take(i as int),
        decreases rows.len() - i,
    {
        let ghost before = mark_views(marks@);
        marks.push((copy(rows[i].id.as_str()), rows[i].editable));
        assert(mark_views(marks@) =~= before.push(all[i as int]));
        assert(all.take(i + 1) =~= all.take(i as int).push(all[i as int]));
        i = i + 1;
    }
    assert(all.take(all.len() as int) =~= all);
    marks
}

fn marks_of_rules(rows: &Vec<RuleRow>) -> (r: Vec<Mark>)
    ensures
        mark_views(r@) == rule_marks(rule_entries(rows@)),
{
    let ghost all = rule_marks(rule_entries(rows@));
    let mut marks: Vec<Mark> = Vec::new();
    let mut i: usize = 0;
    while i < rows.len()
        invariant
            all == rule_marks(rule_entries(rows@)),
            i <= rows@.len(),
            mark_views(marks@) == all.take(i as int),
        decreases rows.len() - i,
    {
        let ghost before = mark_views(marks@);
        marks.push((copy(rows[i].id.as_str()), rows[i].editable));
        assert(mark_views(marks@) =~= before.push(all[i as int]));
        assert(all.take(i + 1) =~= all.take(i as int).push(all[i as int]));
        i = i + 1;
    }
    assert(all.take(all.len() as int) =~= all);
    marks
}

fn marks_of_workspaces(rows: &Vec<WorkspaceRow>) -> (r: Vec<Mark>)
    ensures
        mark_views(r@) == ws_marks(ws_row_views(rows@)),
{
    let ghost all = ws_marks(ws_row_views(rows@));
    let mut marks: Vec<Mark> = Vec::new();
    let mut i: usize = 0;
    while i < rows.len()
        invariant
            all == ws_marks(ws_row_views(rows@)),
            i <= rows@.len(),
            mark_views(marks@) == all.take(i as int),
        decreases rows.len() - i,
    {
        let ghost before = mark_views(marks@);
        marks.push((copy(rows[i].id.as_str()), rows[i].editable));
        assert(mark_views(marks@) =~= before.push(all[i as int]));
        assert(all.take(i + 1) =~= all.take(i as int).push(all[i as int]));
        i = i + 1;
    }
    assert(all.take(all.len() as int) =~= all);
    marks
}

pub fn resolve_selected_keybind_id(rows: &Vec<KeybindRow>, preferred_id: Option<&str>) -> (r:
    Option<String>)
    ensures
        opt_view(r) == selected(bind_marks(bind_row_views(rows@)), opt_text(preferred_id)),
{
    select_mark(&marks_of_binds(rows), preferred_id)
}

pub fn fallback_selected_keybind_after_delete(rows: &Vec<KeybindRow>, deleted_id: &str) -> (r:
    Option<String>)
    ensures
        opt_view(r) == fallback(bind_marks(bind_row_views(rows@)), deleted_id@),
{
    fall_back(&marks_of_binds(rows), deleted_id)
}

pub fn resolve_selected_rule_id(rows: &Vec<RuleRow>, preferred_id: Option<&str>) -> (r: Option<
    String,
>)
    ensures
        opt_view(r) == selected(rule_marks(rule_entries(rows@)), opt_text(preferred_id)),
{
    select_mark(&marks_of_rules(rows), preferred_id)
}

pub fn fallback_selected_rule_after_delete(rows: &Vec<RuleRow>, deleted_id: &str) -> (r: Option<
    String,
>)
    ensures
        opt_view(r) == fallback(rule_marks(rule_entries(rows@)), deleted_id@),
{
    fall_back(&marks_of_rules(rows), deleted_id)
}

pub fn resolve_selected_workspace_id(rows: &Vec<WorkspaceRow>, preferred_id: Option<&str>) -> (r:
    Option<String>)
    ensures
        opt_view(r) == selected(ws_marks(ws_row_views(rows@)), opt_text(preferred_id)),
{
    select_mark(&marks_of_workspaces(rows), preferred_id)
}

/// A numbered workspace stays listed, so it stays selected.
pub open spec fn workspace_fallback(rows: Seq<WsRow>, deleted: Seq<char>) -> Option<Seq<char>> {
    match first_where(ws_marks(rows), is_marked(deleted)) {
        Some(i) => if rows[i].kind is Numbered {
            Some(deleted)
        } else {
            fallback(ws_marks(rows), deleted)
        },
        None => None,
    }
}

pub fn fallback_selected_workspace_after_delete(rows: &Vec<WorkspaceRow>, deleted_id: &str) -> (r:
    Option<String>)
    ensures
        opt_view(r) == workspace_fallback(ws_row_views(rows@), deleted_id@),
{
    let marks = marks_of_workspaces(rows);
    assert(mark_views(marks@).len() == rows@.len());
    match find_mark(&marks, deleted_id) {
        Some(i) => if rows[i].kind == WorkspaceKind::Numbered {
            Some(copy(deleted_id))
        } else {
            fall_back(&marks, deleted_id)
        },
        None => None,
    }
}

/// There is something to select as long as there is a row, and what is
/// selected is a row.
pub proof fn law_selection_is_a_row(marks: Seq<(Seq<char>, bool)>, preferred: Option<Seq<char>>)
    ensures
        selected(marks, preferred) is Some <==> marks.len() > 0,
        selected(marks, preferred) matches Some(id) ==> exists|i: int|
            0 <= i < marks.len() && (#[trigger] marks[i]).0 == id,
        selected(marks, preferred) matches Some(id) ==> selected(marks, Some(id)) == Some(id),
{
    lemma_first_where_found(marks, is_editable());
    if let Some(id) = preferred {
        lemma_first_where_found(marks, is_marked(id));
    }
    if let Some(id) = selected(marks, preferred) {
        if marks.len() > 0 {
            assert(marks[0].0 == marks[0].0);
        }
        let p = is_marked(id);
        lemma_first_where_found(marks, p);
        let i = choose|i: int| 0 <= i < marks.len() && (#[trigger] marks[i]).0 == id;
        assert(p(marks[i]));
    }
}

// --- Key bindings ---

/// The place of a managed binding by its identifier.
pub open spec fn bind_place(count: nat, id: Seq<char>) -> Option<int> {
    if starts_with(id, "managed:"@) {
        match parsed_number(after_prefix(id, "managed:"@), usize::MAX as nat) {
            Some(n) => if n < count {
                Some(n as int)
            } else {
                None
            },
            None => None,
        }
    } else {
        None
    }
}

pub fn managed_keybind_index(keybinds: &Vec<LuaKeybind>, target_id: &str) -> (r: Option<usize>)
    ensures
        match r {
            Some(i) => bind_place(keybinds@.len(), target_id@) == Some(i as int) && i
                < keybinds@.len(),
            None => bind_place(keybinds@.len(), target_id@) is None,
        },
{
    match strip_prefix(target_id, "managed:") {
        Some(rest) => match parse_number(rest.as_str(), usize::MAX as u64) {
            Some(n) => if n < keybinds.len() as u64 {
                Some(n as usize)
            } else {
                None
            },
            None => None,
        },
        None => None,
    }
}

/// Whether a key combination is bound.
pub open spec fn is_bound(binds: Seq<Bind>, modifiers: Modifiers, key: Key) -> bool {
    exists|i: int|
        0 <= i < binds.len() && (#[trigger] binds[i]).modifiers == modifiers && binds[i].key == key
}

pub fn keybind_shortcut_conflicts(keybinds: &Vec<LuaKeybind>, modifiers: Modifiers, key: Key) -> (r:
    bool)
    ensures
        r == is_bound(bind_views(keybinds@), modifiers, key),
{
    let ghost all = bind_views(keybinds@);
    let mut i: usize = 0;
    while i < keybinds.len()
        invariant
            all == bind_views(keybinds@),
            i <= keybinds@.len(),
            forall|j: int|
                0 <= j < i ==> !((#[trigger] all[j]).modifiers == modifiers && all[j].key == key),
        decreases keybinds.len() - i,
    {
        assert(all[i as int] == keybinds@[i as int]@);
        if keybinds[i].modifiers == modifiers && keybinds[i].key == key {
            return true;
        }
        i = i + 1;
    }
    false
}

/// The keys that a new binding tries, in their order.
pub open spec fn spare_keys() -> Seq<Key> {
    seq![
        Key::Period,
        Key::Comma,
        Key::Equal,
        Key::Minus,
        Key::Grave,
        Key::Num0,
        Key::Num1,
        Key::Num2,
        Key::Num3,
        Key::Num4,
        Key::Num5,
        Key::Num6,
        Key::Num7,
        Key::Num8,
        Key::Num9,
        Key::A,
        Key::B,
        Key::C,
        Key::D,
        Key::F,
        Key::G,
        Key::I,
        Key::M,
        Key::N,
        Key::O,
        Key::P,
        Key::R,
        Key::S,
        Key::T,
        Key::U,
        Key::V,
        Key::W,
        Key::X,
        Key::Y,
        Key::Z,
    ]
}

fn list_spare_keys() -> (r: Vec<Key>)
    ensures
        r@ == spare_keys(),
{
    vec![
        Key::Period,
        Key::Comma,
        Key::Equal,
        Key::Minus,
        Key::Grave,
        Key::Num0,
        Key::Num1,
        Key::Num2,
        Key::Num3,
        Key::Num4,
        Key::Num5,
        Key::Num6,
        Key::Num7,
        Key::Num8,
        Key::Num9,
        Key::A,
        Key::B,
        Key::C,
        Key::D,
        Key::F,
        Key::G,
        Key::I,
        Key::M,
        Key::N,
        Key::O,
        Key::P,
        Key::R,
        Key::S,
        Key::T,
        Key::U,
        Key::V,
        Key::W,
        Key::X,
        Key::Y,
        Key::Z,
    ]
}

/// Tells keys that are free in combination with modifiers.
pub open spec fn is_free(binds: Seq<Bind>, modifiers: Modifiers) -> spec_fn(Key) -> bool {
    |k: Key| !is_bound(binds, modifiers, k)
}

/// What a new managed binding is: the first spare key that is free together
/// with the main modifier and shift, or the first of all, to reload.
pub open spec fn new_bind(binds: Seq<Bind>, mod_key: Modifiers) -> Bind {
    let modifiers = mod_key.with(Modifiers { bits: SHIFT_BIT });
    let key = match first_where(spare_keys(), is_free(binds, modifiers)) {
        Some(i) => spare_keys()[i],
        None => Key::Period,
    };
    Bind { modifiers, key, action: Act::Reload }
}

pub fn default_managed_keybind(keybinds: &Vec<LuaKeybind>, mod_key: Modifiers) -> (r: LuaKeybind)
    ensures
        r@ == new_bind(bind_views(keybinds@), mod_key),
{
    let modifiers: Modifiers = mod_key.union(Modifiers::shift());
    let keys = list_spare_keys();
    let ghost p = is_free(bind_views(keybinds@), modifiers);
    let mut i: usize = 0;
    while i < keys.len()
        invariant
            keys@ == spare_keys(),
            modifiers == mod_key.with(Modifiers { bits: SHIFT_BIT }),
            p == is_free(bind_views(keybinds@), modifiers),
            i <= keys@.len(),
            forall|j: int| 0 <= j < i ==> !p(#[trigger] keys@[j]),
        decreases keys.len() - i,
    {
        if !keybind_shortcut_conflicts(keybinds, modifiers, keys[i]) {
            proof {
                lemma_first_where(keys@, p, i as int);
            }
            return LuaKeybind { modifiers, key: keys[i], action: Action::Reload };
        }
        i = i + 1;
    }
    proof {
        lemma_first_where_none(keys@, p);
    }
    LuaKeybind { modifiers, key: Key::Period, action: Action::Reload }
}

/// The identifier of a managed binding.
pub open spec fn managed_id(index: nat) -> Seq<char> {
    "managed:"@ + decimal(index)
}

fn managed_id_of(index: usize) -> (r: String)
    ensures
        r@ == managed_id(index as nat),
{
    let mut s = copy("managed:");
    s.push_str(number(index as u64).as_str());
    s
}

/// The identifier of a managed binding leads to it.
pub proof fn law_managed_id_leads_back(count: nat, index: nat)
    requires
        index < count <= usize::MAX,
    ensures
        bind_place(count, managed_id(index)) == Some(index as int),
{
    let id = managed_id(index);
    assert(after_prefix(id, "managed:"@) =~= decimal(index));
    assert(id.subrange(0, "managed:"@.len() as int) =~= "managed:"@);
    law_number_round_trip(index, usize::MAX as nat);
}

/// A new managed binding takes a combination that is not bound, as long as a
/// spare key is free.
pub proof fn law_new_binding_is_free(binds: Seq<Bind>, mod_key: Modifiers)
    requires
        exists|i: int|
            0 <= i < spare_keys().len() && !is_bound(
                binds,
                mod_key.with(Modifiers { bits: SHIFT_BIT }),
                #[trigger] spare_keys()[i],
            ),
    ensures
        !is_bound(binds, new_bind(binds, mod_key).modifiers, new_bind(binds, mod_key).key),
{
    let p = is_free(binds, mod_key.with(Modifiers { bits: SHIFT_BIT }));
    let i = choose|i: int|
        0 <= i < spare_keys().len() && !is_bound(
            binds,
            mod_key.with(Modifiers { bits: SHIFT_BIT }),
            #[trigger] spare_keys()[i],
        );
    assert(p(spare_keys()[i]));
    lemma_first_where_found(spare_keys(), p);
}

pub fn add_managed_keybind(keybinds: &mut Vec<LuaKeybind>, mod_key: Modifiers) -> (r: String)
    ensures
        bind_views(final(keybinds)@) == bind_views(old(keybinds)@).push(
            new_bind(bind_views(old(keybinds)@), mod_key),
        ),
        r@ == managed_id(old(keybinds)@.len()),
{
    let keybind = default_managed_keybind(keybinds, mod_key);
    let n: usize = keybinds.len();
    keybinds.push(keybind);
    assert(bind_views(keybinds@) =~= bind_views(old(keybinds)@).push(keybind@));
    managed_id_of(n)
}

/// Tells the row of an identifier that cannot be edited.
pub open spec fn is_outer_bind(id: Seq<char>) -> spec_fn(BindRow) -> bool {
    |row: BindRow| row.id == id && !row.editable
}

pub fn copy_keybind_to_managed(
    rows: &Vec<KeybindRow>,
    keybinds: &mut Vec<LuaKeybind>,
    target_id: &str,
) -> (r: Option<String>)
    ensures
        match first_where(bind_row_views(rows@), is_outer_bind(target_id@)) {
            Some(i) => opt_view(r) == Some(managed_id(old(keybinds)@.len())) && bind_views(
                final(keybinds)@,
            ) == bind_views(old(keybinds)@).push(bind_row_views(rows@)[i].bind),
            None => r is None && final(keybinds)@ == old(keybinds)@,
        },
{
    let ghost all = bind_row_views(rows@);
    let ghost p = is_outer_bind(target_id@);
    let mut i: usize = 0;
    while i < rows.len()
        invariant
            all == bind_row_views(rows@),
            p == is_outer_bind(target_id@),
            keybinds@ == old(keybinds)@,
            i <= rows@.len(),
            forall|j: int| 0 <= j < i ==> !p(#[trigger] all[j]),
        decreases rows.len() - i,
    {
        assert(all[i as int] == rows@[i as int]@);
        if !rows[i].editable && same(rows[i].id.as_str(), target_id) {
            proof {
                lemma_first_where(all, p, i as int);
            }
            let n: usize = keybinds.len();
            keybinds.push(rows[i].keybind.clone());
            assert(bind_views(keybinds@) =~= bind_views(old(keybinds)@).push(all[i as int].bind));
            return Some(managed_id_of(n));
        }
        i = i + 1;
    }
    proof {
        lemma_first_where_none(all, p);
    }
    None
}

pub fn delete_managed_keybind(keybinds: &mut Vec<LuaKeybind>, target_id: &str) -> (r: bool)
    ensures
        match bind_place(old(keybinds)@.len(), target_id@) {
            Some(i) => r && bind_views(final(keybinds)@) == bind_views(old(keybinds)@).remove(i),
            None => !r && final(keybinds)@ == old(keybinds)@,
        },
{
    match managed_keybind_index(keybinds, target_id) {
        Some(i) => {
            keybinds.remove(i);
            assert(bind_views(keybinds@) =~= bind_views(old(keybinds)@).remove(i as int));
            true
        },
        None => false,
    }
}

pub fn replace_managed_keybind(
    keybinds: &mut Vec<LuaKeybind>,
    target_id: &str,
    replacement: LuaKeybind,
) -> (r: bool)
    ensures
        match bind_place(old(keybinds)@.len(), target_id@) {
            Some(i) => r && bind_views(final(keybinds)@) == bind_views(old(keybinds)@).update(
                i,
                replacement@,
            ),
            None => !r && final(keybinds)@ == old(keybinds)@,
        },
{
    match managed_keybind_index(keybinds, target_id) {
        Some(i) => {
            keybinds[i] = replacement;
            assert(bind_views(keybinds@) =~= bind_views(old(keybinds)@).update(
                i as int,
                replacement@,
            ));
            true
        },
        None => false,
    }
}

} // verus!
