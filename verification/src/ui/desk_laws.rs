//! What the actions of the settings window change.
use vstd::prelude::*;
use crate::config::keybinds::{bind_named, default_binds, key_parts, lowered_parts};
use crate::config::lua::with_def;
use crate::config::rules::{Rule, WindowRule};
use crate::config::special::{default_overlay, Overlay};
use crate::config::workspaces::ws_rows;
use crate::seqs::{
    first_where, is_first_where, is_least, lemma_first_where, lemma_first_where_found, lemma_least,
};
use crate::ui::editing::{
    fallback, is_editable, is_marked, is_outer_bind, law_managed_id_leads_back, managed_id,
    selected,
};
use crate::ui::rule_editing::{fresh_rule, has_rule_id, rule_place};
use crate::text::trimmed;
use crate::ui::settings::{Desk, KeybindDraft, SettingsAction};
use crate::ui::workspace_editing::{is_row_of, law_overlay_replaces_its_namesake, WorkspaceDraft};
use crate::wm::input::Act;
use crate::wm::state::defines;
use crate::wm::workspace::{id_named, plain_def, WsDef, WsId};

verus! {

// --- Settings ---

/// Whether nothing but the settings differs, and they are to be written.
pub open spec fn only_setup_differs(was: Desk, now: Desk) -> bool {
    &&& now.write
    &&& now.managed.binds == was.managed.binds
    &&& now.managed.rules == was.managed.rules
    &&& now.managed.defs == was.managed.defs
    &&& now.managed.overlays == was.managed.overlays
    &&& now.script == was.script
}

/// An action for a length gives this setting the length and no other setting anything.
pub proof fn law_length_action_sets_length(desk: Desk, v: i64)
    ensures
        ({
            let s = desk.managed.setup;
            let inner = desk.changed(SettingsAction::GapInner(v));
            let outer = desk.changed(SettingsAction::GapOuter(v));
            let bar = desk.changed(SettingsAction::BarHeight(v));
            let width = desk.changed(SettingsAction::BorderWidth(v));
            let radius = desk.changed(SettingsAction::BorderRadius(v));
            &&& only_setup_differs(desk, inner)
            &&& only_setup_differs(desk, outer)
            &&& only_setup_differs(desk, bar)
            &&& only_setup_differs(desk, width)
            &&& only_setup_differs(desk, radius)
            &&& inner.managed.setup.gap_inner == v && inner.managed.setup.gap_outer == s.gap_outer
            &&& outer.managed.setup.gap_outer == v && outer.managed.setup.gap_inner == s.gap_inner
            &&& bar.managed.setup.bar_height == v && bar.managed.setup.gap_inner == s.gap_inner
                && bar.managed.setup.border_width == s.border_width
            &&& width.managed.setup.border_width == v && width.managed.setup.border_radius
                == s.border_radius && width.managed.setup.bar_height == s.bar_height
            &&& radius.managed.setup.border_radius == v && radius.managed.setup.border_width
                == s.border_width
        }),
{
}

/// An action for a flag gives this flag the value and the other one nothing.
pub proof fn law_flag_action_sets_flag(desk: Desk, v: bool)
    ensures
        ({
            let s = desk.managed.setup;
            let focus = desk.changed(SettingsAction::FocusFollowsMouse(v));
            let mouse = desk.changed(SettingsAction::MouseFollowsFocus(v));
            &&& only_setup_differs(desk, focus)
            &&& only_setup_differs(desk, mouse)
            &&& focus.managed.setup.focus_follows_mouse == v
                && focus.managed.setup.mouse_follows_focus == s.mouse_follows_focus
            &&& mouse.managed.setup.mouse_follows_focus == v
                && mouse.managed.setup.focus_follows_mouse == s.focus_follows_mouse
        }),
{
}

// --- Rules ---

/// Whether a rule is the first one of an identifier.
pub open spec fn is_rule_at(rules: Seq<Rule>, id: Seq<char>, i: int) -> bool {
    &&& 0 <= i < rules.len()
    &&& rules[i].effective_id(i as nat) == id
    &&& forall|j: int| 0 <= j < i ==> (#[trigger] rules[j]).effective_id(j as nat) != id
}

proof fn lemma_rule_at(rules: Seq<Rule>, id: Seq<char>, i: int)
    requires
        is_rule_at(rules, id, i),
    ensures
        rule_place(rules, id) == Some(i),
{
    let p = has_rule_id(rules, id);
    assert forall|j: int| 0 <= j < i implies !#[trigger] p(j) by {
        assert(rules[j].effective_id(j as nat) != id);
    }
    assert(is_least(rules.len() as int, p, i));
    lemma_least(rules.len() as int, p, i);
}

/// Moving a rule up puts it before the rule that stood before it, and moving it down behind the one
/// that stood behind it; the other rules stay in their places, and at the end of the list nothing
/// happens.
pub proof fn law_rule_moves_one_place(desk: Desk, id: String, i: int)
    requires
        is_rule_at(desk.managed.rules, id@, i),
    ensures
        ({
            let rules = desk.managed.rules;
            let up = desk.changed(SettingsAction::MoveRuleUp(id)).managed.rules;
            let down = desk.changed(SettingsAction::MoveRuleDown(id)).managed.rules;
            &&& i > 0 ==> up.len() == rules.len() && up[i - 1] == rules[i] && up[i] == rules[i - 1]
                && forall|j: int|
                0 <= j < rules.len() && j != i && j != i - 1 ==> #[trigger] up[j] == rules[j]
            &&& i == 0 ==> up == rules
            &&& i + 1 < rules.len() ==> down.len() == rules.len() && down[i + 1] == rules[i]
                && down[i] == rules[i + 1] && forall|j: int|
                0 <= j < rules.len() && j != i && j != i + 1 ==> #[trigger] down[j] == rules[j]
            &&& i + 1 == rules.len() ==> down == rules
        }),
{
    lemma_rule_at(desk.managed.rules, id@, i);
}

/// Deleting a rule takes it out and lets the others close up; a copy of a rule stands right behind it
/// and differs in nothing but its identifier; switching it on or off changes nothing else of it.
pub proof fn law_rule_is_deleted_copied_or_switched(desk: Desk, id: String, i: int, on: bool)
    requires
        is_rule_at(desk.managed.rules, id@, i),
    ensures
        ({
            let rules = desk.managed.rules;
            let gone = desk.changed(SettingsAction::DeleteRule(id)).managed.rules;
            let copied = desk.changed(SettingsAction::DuplicateRule(id)).managed.rules;
            let switched = desk.changed(SettingsAction::ToggleRuleEnabled(id, on)).managed.rules;
            &&& gone.len() == rules.len() - 1
            &&& forall|j: int| 0 <= j < i ==> #[trigger] gone[j] == rules[j]
            &&& forall|j: int| i <= j < gone.len() ==> #[trigger] gone[j] == rules[j + 1]
            &&& copied.len() == rules.len() + 1
            &&& forall|j: int| 0 <= j <= i ==> #[trigger] copied[j] == rules[j]
            &&& forall|j: int| i + 1 < j < copied.len() ==> #[trigger] copied[j] == rules[j - 1]
            &&& copied[i + 1].app_name == rules[i].app_name
            &&& copied[i + 1].app_bundle == rules[i].app_bundle
            &&& copied[i + 1].title == rules[i].title
            &&& copied[i + 1].floating == rules[i].floating
            &&& copied[i + 1].workspace == rules[i].workspace
            &&& copied[i + 1].geometry == rules[i].geometry
            &&& copied[i + 1].enabled == rules[i].enabled
            &&& switched.len() == rules.len()
            &&& forall|j: int| 0 <= j < rules.len() && j != i ==> #[trigger] switched[j] == rules[j]
            &&& switched[i].enabled == on
            &&& switched[i].app_name == rules[i].app_name
            &&& switched[i].floating == rules[i].floating
            &&& switched[i].workspace == rules[i].workspace
            &&& switched[i].geometry == rules[i].geometry
        }),
{
    lemma_rule_at(desk.managed.rules, id@, i);
}

// --- Key bindings ---

/// Deleting a managed binding by its number from zero takes that one out and lets the others close
/// up; a new one comes last and is selected.
pub proof fn law_binding_is_deleted_or_added(desk: Desk, id: String, i: nat)
    requires
        i < desk.managed.binds.len() <= usize::MAX,
        id@ == managed_id(i),
    ensures
        ({
            let binds = desk.managed.binds;
            let gone = desk.changed(SettingsAction::DeleteKeybind(id)).managed.binds;
            let more = desk.changed(SettingsAction::AddKeybind);
            &&& gone.len() == binds.len() - 1
            &&& forall|j: int| 0 <= j < i ==> #[trigger] gone[j] == binds[j]
            &&& forall|j: int| i <= j < gone.len() ==> #[trigger] gone[j] == binds[j + 1]
            &&& more.managed.binds.len() == binds.len() + 1
            &&& forall|j: int|
                0 <= j < binds.len() ==> #[trigger] more.managed.binds[j] == binds[j]
            &&& more.managed.binds.last().action == Act::Reload
            &&& more.keybind == Some(managed_id(binds.len()))
        }),
{
    law_managed_id_leads_back(desk.managed.binds.len(), i);
}

// --- Selection ---

/// Once a row is deleted, the row behind it is selected, or the one before it if it was the last, or
/// none if it was the only one.
pub proof fn law_next_row_is_selected(
    marks: Seq<(Seq<char>, bool)>,
    deleted: Seq<char>,
    i: int,
)
    requires
        0 <= i < marks.len(),
        marks[i].0 == deleted,
        forall|j: int| 0 <= j < i ==> (#[trigger] marks[j]).0 != deleted,
    ensures
        i + 1 < marks.len() ==> fallback(marks, deleted) == Some(marks[i + 1].0),
        i + 1 == marks.len() && i > 0 ==> fallback(marks, deleted) == Some(marks[i - 1].0),
        marks.len() == 1 ==> fallback(marks, deleted) is None,
{
    let p = is_marked(deleted);
    assert(is_first_where(marks, p, i));
    lemma_first_where(marks, p, i);
}

/// The row that is asked for is selected if it is there; else the first one that can be edited, and
/// if none can, the first one.
pub proof fn law_row_is_selected(
    marks: Seq<(Seq<char>, bool)>,
    preferred: Seq<char>,
    i: int,
)
    ensures
        0 <= i < marks.len() && marks[i].0 == preferred ==> selected(marks, Some(preferred)) == Some(
            preferred,
        ),
        (forall|j: int| 0 <= j < marks.len() ==> (#[trigger] marks[j]).0 != preferred) && 0 <= i
            < marks.len() && marks[i].1 && (forall|j: int| 0 <= j < i ==> !(#[trigger] marks[j]).1)
            ==> selected(marks, Some(preferred)) == Some(marks[i].0),
        (forall|j: int| 0 <= j < marks.len() ==> !(#[trigger] marks[j]).1) && marks.len() > 0
            ==> selected(marks, None) == Some(marks[0].0),
        marks.len() == 0 ==> selected(marks, Some(preferred)) is None,
{
    let p = is_marked(preferred);
    let q = is_editable();
    lemma_first_where_found(marks, p);
    lemma_first_where_found(marks, q);
    if let Some(k) = first_where(marks, p) {
        assert(p(marks[k]));
    } else if 0 <= i < marks.len() {
        assert(!p(marks[i]));
    }
    if let Some(k) = first_where(marks, q) {
        assert(q(marks[k]));
    }
    if 0 <= i < marks.len() && marks[i].1 && (forall|j: int| 0 <= j < i ==> !(#[trigger] marks[j]).1) {
        assert(is_first_where(marks, q, i));
        lemma_first_where(marks, q, i);
    }
}

/// A new rule is enabled, is for every window and does nothing yet.
pub proof fn law_new_rule_does_nothing(rules: Seq<Rule>)
    ensures
        ({
            let r = fresh_rule(rules);
            &&& r.enabled
            &&& r.name == Some("New Rule"@)
            &&& r.id is Some
            &&& r.app_name is None && r.app_bundle is None && r.title is None
            &&& r.floating is None && r.workspace is None && r.geometry is None
        }),
{
}

// --- What is applied ---

/// A draft of a rule that is applied takes the place of the rule and keeps its identifier; the other
/// rules stay. A new rule comes last and is selected.
pub proof fn law_applied_rule_takes_place(desk: Desk, id: String, draft: WindowRule, i: int)
    requires
        is_rule_at(desk.managed.rules, id@, i),
    ensures
        ({
            let rules = desk.managed.rules;
            let drafted = desk.changed(SettingsAction::UpdateRuleDraft(draft));
            let after = drafted.changed(SettingsAction::ApplyRule(id));
            let now = after.managed.rules;
            let more = desk.changed(SettingsAction::AddRule);
            &&& drafted.managed == desk.managed
            &&& after.write
            &&& after.rule_draft is None
            &&& after.rule == Some(id@)
            &&& now.len() == rules.len()
            &&& forall|j: int| 0 <= j < rules.len() && j != i ==> #[trigger] now[j] == rules[j]
            &&& now[i].id == Some(id@)
            &&& now[i].name == draft@.name
            &&& now[i].enabled == draft@.enabled
            &&& now[i].app_name == draft@.app_name
            &&& now[i].app_bundle == draft@.app_bundle
            &&& now[i].title == draft@.title
            &&& now[i].floating == draft@.floating
            &&& now[i].workspace == draft@.workspace
            &&& now[i].geometry == draft@.geometry
            &&& more.write
            &&& more.managed.rules.len() == rules.len() + 1
            &&& forall|j: int|
                0 <= j < rules.len() ==> #[trigger] more.managed.rules[j] == rules[j]
            &&& more.rule == more.managed.rules.last().id
        }),
{
    lemma_rule_at(desk.managed.rules, id@, i);
}

/// A draft of a binding that is applied takes the place of the binding by its number; one that cannot
/// be read changes no binding. All bindings can be set to the usual ones.
pub proof fn law_applied_binding_takes_place(desk: Desk, id: String, draft: KeybindDraft, i: nat)
    requires
        i < desk.managed.binds.len() <= usize::MAX,
        id@ == managed_id(i),
    ensures
        ({
            let binds = desk.managed.binds;
            let mod_key = desk.managed.setup.mod_key;
            let read = bind_named(
                lowered_parts(key_parts(draft.shortcut@)),
                draft.action@,
                mod_key,
            );
            let drafted = desk.changed(SettingsAction::UpdateKeybindDraft(draft));
            let after = drafted.changed(SettingsAction::ApplyKeybind(id));
            let now = after.managed.binds;
            let usual = desk.changed(SettingsAction::ResetManagedKeybinds);
            &&& drafted.managed == desk.managed
            &&& after.keybind_draft is None
            &&& now.len() == binds.len()
            &&& forall|j: int| 0 <= j < binds.len() && j != i ==> #[trigger] now[j] == binds[j]
            &&& read is Err ==> now[i as int] == binds[i as int]
            &&& (read matches Ok(bind) ==> after.write && now[i as int] == bind)
            &&& usual.write
            &&& usual.managed.binds == default_binds(mod_key)
        }),
{
    law_managed_id_leads_back(desk.managed.binds.len(), i);
}

/// A binding from elsewhere that is made a managed one comes last and is selected.
pub proof fn law_copied_binding_comes_last(desk: Desk, id: String, k: int)
    requires
        0 <= k < desk.bind_rows().len(),
        desk.bind_rows()[k].id == id@,
        !desk.bind_rows()[k].editable,
        forall|j: int|
            0 <= j < k ==> (#[trigger] desk.bind_rows()[j]).id != id@ || desk.bind_rows()[j].editable,
    ensures
        ({
            let binds = desk.managed.binds;
            let after = desk.changed(SettingsAction::CopyKeybindToManaged(id));
            &&& after.write
            &&& after.managed.binds.len() == binds.len() + 1
            &&& forall|j: int|
                0 <= j < binds.len() ==> #[trigger] after.managed.binds[j] == binds[j]
            &&& after.managed.binds.last() == desk.bind_rows()[k].bind
            &&& after.keybind == Some(managed_id(binds.len()))
        }),
{
    let p = is_outer_bind(id@);
    assert(is_first_where(desk.bind_rows(), p, k));
    lemma_first_where(desk.bind_rows(), p, k);
}

/// A draft of a workspace that is applied is its definition, in the place of the one that it had or
/// else behind the others, which stay.
pub proof fn law_applied_workspace_is_defined(desk: Desk, id: String, draft: WorkspaceDraft)
    requires
        draft@.id == id@,
    ensures
        ({
            let defs = desk.managed.defs;
            let drafted = desk.changed(SettingsAction::UpdateWorkspaceDraft(draft));
            let after = drafted.changed(SettingsAction::ApplyWorkspace(id));
            let now = after.managed.defs;
            &&& drafted.managed == desk.managed
            &&& after.write
            &&& after.workspace == Some(id@)
            &&& now.contains(draft@.def)
            &&& now.len() >= defs.len()
            &&& forall|j: int|
                0 <= j < defs.len() && defs[j].id != draft@.def.id ==> #[trigger] now[j] == defs[j]
            &&& (draft@.special matches Some(o) ==> after.managed.overlays.contains(o))
        }),
{
    let defs = desk.managed.defs;
    let def = draft@.def;
    let now = with_def(defs, def);
    lemma_first_where_found(defs, defines(def.id));
    match first_where(defs, defines(def.id)) {
        Some(k) => {
            assert(defines(def.id)(defs[k]));
            assert(now[k] == def);
        },
        None => {
            assert(now[defs.len() as int] == def);
        },
    }
    if let Some(o) = draft@.special {
        law_overlay_replaces_its_namesake(desk.managed.overlays, o);
    }
}

/// A lettered workspace that is added is defined and selected.
pub proof fn law_added_lettered_workspace_is_defined(desk: Desk, letter: String, c: char)
    requires
        id_named(letter@) == Some(WsId::Lettered(c)),
    ensures
        ({
            let after = desk.changed(SettingsAction::AddLetteredWorkspace(letter));
            &&& after.write
            &&& after.managed.overlays == desk.managed.overlays
            &&& after.managed.defs.contains(plain_def(WsId::Lettered(c)))
            &&& after.workspace == Some(WsId::Lettered(c).text())
        }),
{
    lemma_def_added(desk.managed.defs, plain_def(WsId::Lettered(c)));
}

/// A special workspace that is added is defined and selected, with an overlay of its name that takes
/// seven tenths of the screen each way; a blank name adds nothing.
pub proof fn law_added_special_workspace_is_defined(desk: Desk, name: String)
    ensures
        ({
            let after = desk.changed(SettingsAction::AddSpecialWorkspace(name));
            let id = trimmed(name@);
            &&& id.len() == 0 ==> after == desk
            &&& id.len() > 0 ==> {
                &&& after.write
                &&& after.managed.defs.contains(plain_def(WsId::Special(id)))
                &&& after.managed.overlays.contains(
                    (Overlay { name: id, position: "center"@, width: 700, height: 700 }),
                )
                &&& after.workspace == Some(WsId::Special(id).text())
            }
        }),
{
    let id = trimmed(name@);
    lemma_def_added(desk.managed.defs, plain_def(WsId::Special(id)));
    law_overlay_replaces_its_namesake(desk.managed.overlays, default_overlay(id));
}

proof fn lemma_def_added(defs: Seq<WsDef>, def: WsDef)
    ensures
        with_def(defs, def).contains(def),
{
    let now = with_def(defs, def);
    lemma_first_where_found(defs, defines(def.id));
    match first_where(defs, defines(def.id)) {
        Some(k) => {
            assert(now[k] == def);
        },
        None => {
            assert(now[defs.len() as int] == def);
        },
    }
}

/// A managed workspace that is deleted loses its definition; the other definitions stay in order.
pub proof fn law_deleted_workspace_is_not_defined(desk: Desk, id: String, r: int, k: int)
    requires
        ({
            let rows = ws_rows(desk.managed, desk.script);
            &&& 0 <= r < rows.len()
            &&& rows[r].id == id@
            &&& rows[r].editable
        }),
        0 <= k < desk.managed.defs.len(),
        id_named(id@) == Some(desk.managed.defs[k].id),
        forall|j: int|
            0 <= j < k ==> (#[trigger] desk.managed.defs[j]).id != desk.managed.defs[k].id,
    ensures
        ({
            let defs = desk.managed.defs;
            let after = desk.changed(SettingsAction::DeleteWorkspace(id));
            let now = after.managed.defs;
            &&& after.write
            &&& now.len() == defs.len() - 1
            &&& forall|j: int| 0 <= j < k ==> #[trigger] now[j] == defs[j]
            &&& forall|j: int| k <= j < now.len() ==> #[trigger] now[j] == defs[j + 1]
        }),
{
    let rows = ws_rows(desk.managed, desk.script);
    let p = is_row_of(id@, true);
    lemma_first_where_found(rows, p);
    assert(p(rows[r]));
    let d = defines(desk.managed.defs[k].id);
    assert(is_first_where(desk.managed.defs, d, k));
    lemma_first_where(desk.managed.defs, d, k);
}

} // verus!
