//! Edits of the managed workspaces.
use vstd::prelude::*;
use crate::config::lua::with_def;
use crate::config::order::def_views;
use crate::config::rows::{opt_overlay, ws_row_views, WorkspaceRow, WsRow};
use crate::config::special::{
    default_overlay, is_overlay_of, overlay_views, Overlay, SpecialWorkspaceConfig,
};
use crate::seqs::{first_where, lemma_first_where, lemma_first_where_found, lemma_first_where_none};
use crate::text::{after_prefix, copy, opt_view, same, starts_with, strip_prefix, trim, trimmed};
use crate::wm::state::defines;
use crate::wm::workspace::{
    id_named, plain_def, WorkspaceDefinition, WorkspaceId, WorkspaceKind, WsDef, WsId,
};

verus! {

/// The place of a definition by the name of its workspace.
pub open spec fn def_place(defs: Seq<WsDef>, id: WsId) -> Option<int> {
    first_where(defs, defines(id))
}

/// The place of an overlay by its name.
pub open spec fn overlay_place(overlays: Seq<Overlay>, name: Seq<char>) -> Option<int> {
    first_where(overlays, is_overlay_of(name))
}

/// The place of a definition by a text that names its workspace.
pub open spec fn named_def_place(defs: Seq<WsDef>, id: Seq<char>) -> Option<int> {
    match id_named(id) {
        Some(id) => def_place(defs, id),
        None => None,
    }
}

/// The place of an overlay by a text that names its workspace.
pub open spec fn named_overlay_place(overlays: Seq<Overlay>, id: Seq<char>) -> Option<int> {
    if starts_with(id, "special:"@) {
        overlay_place(overlays, after_prefix(id, "special:"@))
    } else {
        None
    }
}

/// The overlays with one more, which takes the place of an earlier one of its
/// name.
pub open spec fn with_overlay(overlays: Seq<Overlay>, overlay: Overlay) -> Seq<Overlay> {
    match overlay_place(overlays, overlay.name) {
        Some(i) => overlays.update(i, overlay),
        None => overlays.push(overlay),
    }
}

fn find_def_place(defs: &Vec<WorkspaceDefinition>, id: &WorkspaceId) -> (r: Option<usize>)
    ensures
        match r {
            Some(i) => def_place(def_views(defs@), id@) == Some(i as int) && i < defs@.len(),
            None => def_place(def_views(defs@), id@) is None,
        },
{
    let ghost all = def_views(defs@);
    let ghost p = defines(id@);
    let mut i: usize = 0;
    while i < defs.len()
        invariant
            all == def_views(defs@),
            p == defines(id@),
            i <= defs@.len(),
            forall|j: int| 0 <= j < i ==> !p(#[trigger] all[j]),
        decreases defs.len() - i,
    {
        assert(all[i as int] == defs@[i as int]@);
        if defs[i].id.is(id) {
            proof {
                lemma_first_where(all, p, i as int);
            }
            return Some(i);
        }
        i = i + 1;
    }
    proof {
        lemma_first_where_none(all, p);
    }
    None
}

fn find_overlay_place(specials: &Vec<SpecialWorkspaceConfig>, name: &str) -> (r: Option<usize>)
    ensures
        match r {
            Some(i) => overlay_place(overlay_views(specials@), name@) == Some(i as int) && i
                < specials@.len(),
            None => overlay_place(overlay_views(specials@), name@) is None,
        },
{
    let ghost all = overlay_views(specials@);
    let ghost p = is_overlay_of(name@);
    let mut i: usize = 0;
    while i < specials.len()
        invariant
            all == overlay_views(specials@),
            p == is_overlay_of(name@),
            i <= specials@.len(),
            forall|j: int| 0 <= j < i ==> !p(#[trigger] all[j]),
        decreases specials.len() - i,
    {
        assert(all[i as int] == specials@[i as int]@);
        if same(specials[i].name.as_str(), name) {
            proof {
                lemma_first_where(all, p, i as int);
            }
            return Some(i);
        }
        i = i + 1;
    }
    proof {
        lemma_first_where_none(all, p);
    }
    None
}

pub fn managed_workspace_def_index(defs: &Vec<WorkspaceDefinition>, target_id: &str) -> (r: Option<
    usize,
>)
    ensures
        match r {
            Some(i) => named_def_place(def_views(defs@), target_id@) == Some(i as int) && i
                < defs@.len(),
            None => named_def_place(def_views(defs@), target_id@) is None,
        },
{
    match WorkspaceId::parse(target_id) {
        Some(id) => find_def_place(defs, &id),
        None => None,
    }
}

pub fn managed_special_index(specials: &Vec<SpecialWorkspaceConfig>, target_id: &str) -> (r: Option<
    usize,
>)
    ensures
        match r {
            Some(i) => named_overlay_place(overlay_views(specials@), target_id@) == Some(i as int)
                && i < specials@.len(),
            None => named_overlay_place(overlay_views(specials@), target_id@) is None,
        },
{
    match strip_prefix(target_id, "special:") {
        Some(name) => find_overlay_place(specials, name.as_str()),
        None => None,
    }
}

pub fn upsert_managed_workspace_def(
    defs: &mut Vec<WorkspaceDefinition>,
    definition: WorkspaceDefinition,
)
    ensures
        def_views(final(defs)@) == with_def(def_views(old(defs)@), definition@),
{
    match find_def_place(defs, &definition.id) {
        Some(i) => {
            defs[i] = definition;
            assert(def_views(defs@) =~= def_views(old(defs)@).update(i as int, definition@));
        },
        None => {
            defs.push(definition);
            assert(def_views(defs@) =~= def_views(old(defs)@).push(definition@));
        },
    }
}

pub fn upsert_managed_special_config(
    specials: &mut Vec<SpecialWorkspaceConfig>,
    special: SpecialWorkspaceConfig,
)
    ensures
        overlay_views(final(specials)@) == with_overlay(overlay_views(old(specials)@), special@),
{
    match find_overlay_place(specials, special.name.as_str()) {
        Some(i) => {
            specials[i] = special;
            assert(overlay_views(specials@) =~= overlay_views(old(specials)@).update(
                i as int,
                special@,
            ));
        },
        None => {
            specials.push(special);
            assert(overlay_views(specials@) =~= overlay_views(old(specials)@).push(special@));
        },
    }
}

pub fn add_managed_lettered_workspace(
    defs: &mut Vec<WorkspaceDefinition>,
    letter: &str,
) -> (r: Option<String>)
    ensures
        match id_named(letter@) {
            Some(WsId::Lettered(c)) => opt_view(r) == Some(WsId::Lettered(c).text()) && def_views(
                final(defs)@,
            ) == with_def(def_views(old(defs)@), plain_def(WsId::Lettered(c))),
            _ => r is None && final(defs)@ == old(defs)@,
        },
{
    match WorkspaceId::parse(letter) {
        Some(id) => match &id {
            WorkspaceId::Lettered(_) => {
                let text = id.to_string();
                upsert_managed_workspace_def(defs, WorkspaceDefinition::new(id));
                Some(text)
            },
            _ => None,
        },
        None => None,
    }
}

pub fn add_managed_special_workspace(
    defs: &mut Vec<WorkspaceDefinition>,
    specials: &mut Vec<SpecialWorkspaceConfig>,
    name: &str,
) -> (r: Option<String>)
    ensures
        if trimmed(name@).len() == 0 {
            r is None && final(defs)@ == old(defs)@ && final(specials)@ == old(specials)@
        } else {
            &&& opt_view(r) == Some(WsId::Special(trimmed(name@)).text())
            &&& def_views(final(defs)@) == with_def(
                def_views(old(defs)@),
                plain_def(WsId::Special(trimmed(name@))),
            )
            &&& overlay_views(final(specials)@) == with_overlay(
                overlay_views(old(specials)@),
                default_overlay(trimmed(name@)),
            )
        },
{
    let name = trim(name);
    if name.as_str().is_empty() {
        return None;
    }
    let special = SpecialWorkspaceConfig::default_for(name.as_str());
    let id = WorkspaceId::Special(name);
    let text = id.to_string();
    upsert_managed_workspace_def(defs, WorkspaceDefinition::new(id));
    upsert_managed_special_config(specials, special);
    Some(text)
}

/// Tells the row of an identifier that can be edited, or that cannot.
pub open spec fn is_row_of(id: Seq<char>, editable: bool) -> spec_fn(WsRow) -> bool {
    |row: WsRow| row.id == id && row.editable == editable
}

fn find_row(rows: &Vec<WorkspaceRow>, id: &str, editable: bool) -> (r: Option<usize>)
    ensures
        match r {
            Some(i) => first_where(ws_row_views(rows@), is_row_of(id@, editable)) == Some(i as int)
                && i < rows@.len(),
            None => first_where(ws_row_views(rows@), is_row_of(id@, editable)) is None,
        },
{
    let ghost all = ws_row_views(rows@);
    let ghost p = is_row_of(id@, editable);
    let mut i: usize = 0;
    while i < rows.len()
        invariant
            all == ws_row_views(rows@),
            p == is_row_of(id@, editable),
            i <= rows@.len(),
            forall|j: int| 0 <= j < i ==> !p(#[trigger] all[j]),
        decreases rows.len() - i,
    {
        assert(all[i as int] == rows@[i as int]@);
        if rows[i].editable == editable && same(rows[i].id.as_str(), id) {
            proof {
                lemma_first_where(all, p, i as int);
            }
            return Some(i);
        }
        i = i + 1;
    }
    proof {
        lemma_first_where_none(all, p);
    }
    None
}

/// The overlays once a row has become managed.
pub open spec fn overlays_with_row(overlays: Seq<Overlay>, row: WsRow) -> Seq<Overlay> {
    match row.special {
        Some(overlay) => with_overlay(overlays, overlay),
        None => overlays,
    }
}

pub fn copy_workspace_to_managed(
    rows: &Vec<WorkspaceRow>,
    defs: &mut Vec<WorkspaceDefinition>,
    specials: &mut Vec<SpecialWorkspaceConfig>,
    target_id: &str,
) -> (r: Option<String>)
    ensures
        match first_where(ws_row_views(rows@), is_row_of(target_id@, false)) {
            Some(i) => {
                let row = ws_row_views(rows@)[i];
                &&& opt_view(r) == Some(row.id)
                &&& def_views(final(defs)@) == with_def(def_views(old(defs)@), row.def)
                &&& overlay_views(final(specials)@) == overlays_with_row(
                    overlay_views(old(specials)@),
                    row,
                )
            },
            None => r is None && final(defs)@ == old(defs)@ && final(specials)@ == old(specials)@,
        },
{
    match find_row(rows, target_id, false) {
        Some(i) => {
            upsert_managed_workspace_def(defs, rows[i].definition.clone());
            if let Some(special) = &rows[i].special {
                upsert_managed_special_config(specials, special.clone());
            }
            Some(copy(rows[i].id.as_str()))
        },
        None => None,
    }
}

/// The definitions without the one that a text names.
pub open spec fn defs_without(defs: Seq<WsDef>, id: Seq<char>) -> Seq<WsDef> {
    match named_def_place(defs, id) {
        Some(i) => defs.remove(i),
        None => defs,
    }
}

/// The overlays without the one that a text names.
pub open spec fn overlays_without(overlays: Seq<Overlay>, id: Seq<char>) -> Seq<Overlay> {
    match named_overlay_place(overlays, id) {
        Some(i) => overlays.remove(i),
        None => overlays,
    }
}

fn remove_def(defs: &mut Vec<WorkspaceDefinition>, id: &str) -> (r: bool)
    ensures
        def_views(final(defs)@) == defs_without(def_views(old(defs)@), id@),
        r == (named_def_place(def_views(old(defs)@), id@) is Some),
{
    match managed_workspace_def_index(defs, id) {
        Some(i) => {
            defs.remove(i);
            assert(def_views(defs@) =~= def_views(old(defs)@).remove(i as int));
            true
        },
        None => false,
    }
}

fn remove_overlay(specials: &mut Vec<SpecialWorkspaceConfig>, id: &str) -> (r: bool)
    ensures
        overlay_views(final(specials)@) == overlays_without(overlay_views(old(specials)@), id@),
        r == (named_overlay_place(overlay_views(old(specials)@), id@) is Some),
{
    match managed_special_index(specials, id) {
        Some(i) => {
            specials.remove(i);
            assert(overlay_views(specials@) =~= overlay_views(old(specials)@).remove(i as int));
            true
        },
        None => false,
    }
}

pub fn delete_managed_workspace(
    rows: &Vec<WorkspaceRow>,
    defs: &mut Vec<WorkspaceDefinition>,
    specials: &mut Vec<SpecialWorkspaceConfig>,
    target_id: &str,
) -> (r: bool)
    ensures
        match first_where(ws_row_views(rows@), is_row_of(target_id@, true)) {
            Some(i) => {
                let special = ws_row_views(rows@)[i].kind is Special;
                &&& def_views(final(defs)@) == defs_without(def_views(old(defs)@), target_id@)
                &&& overlay_views(final(specials)@) == if special {
                    overlays_without(overlay_views(old(specials)@), target_id@)
                } else {
                    overlay_views(old(specials)@)
                }
                &&& r == (named_def_place(def_views(old(defs)@), target_id@) is Some || (special
                    && named_overlay_place(overlay_views(old(specials)@), target_id@) is Some))
            },
            None => !r && final(defs)@ == old(defs)@ && final(specials)@ == old(specials)@,
        },
{
    match find_row(rows, target_id, true) {
        Some(i) => {
            let defined: bool = remove_def(defs, target_id);
            let shown: bool = if rows[i].kind == WorkspaceKind::Special {
                remove_overlay(specials, target_id)
            } else {
                false
            };
            defined || shown
        },
        None => false,
    }
}

/// What a user has entered for a workspace.
#[derive(Debug)]
pub struct WorkspaceDraft {
    pub id: String,
    pub definition: WorkspaceDefinition,
    pub special: Option<SpecialWorkspaceConfig>,
}

/// What a user has entered for a workspace, as a mathematical value.
pub struct Draft {
    pub id: Seq<char>,
    pub def: WsDef,
    pub special: Option<Overlay>,
}

impl View for WorkspaceDraft {
    type V = Draft;

    open spec fn view(&self) -> Draft {
        Draft { id: self.id@, def: self.definition@, special: opt_overlay(self.special) }
    }
}

impl Clone for WorkspaceDraft {
    fn clone(&self) -> (r: Self)
        ensures
            r@ == self@,
    {
        let special = match &self.special {
            Some(special) => Some(special.clone()),
            None => None,
        };
        WorkspaceDraft {
            id: copy(self.id.as_str()),
            definition: self.definition.clone(),
            special,
        }
    }
}

/// The overlays once a draft holds.
pub open spec fn overlays_with_draft(overlays: Seq<Overlay>, draft: Draft) -> Seq<Overlay> {
    match draft.special {
        Some(overlay) => with_overlay(overlays, overlay),
        None => overlays_without(overlays, draft.id),
    }
}

pub fn replace_managed_workspace(
    defs: &mut Vec<WorkspaceDefinition>,
    specials: &mut Vec<SpecialWorkspaceConfig>,
    target_id: &str,
    draft: &WorkspaceDraft,
) -> (r: bool)
    ensures
        r == (target_id@ == draft.id@),
        if target_id@ == draft.id@ {
            &&& def_views(final(defs)@) == with_def(def_views(old(defs)@), draft.definition@)
            &&& overlay_views(final(specials)@) == overlays_with_draft(
                overlay_views(old(specials)@),
                draft@,
            )
        } else {
            final(defs)@ == old(defs)@ && final(specials)@ == old(specials)@
        },
{
    if !same(target_id, draft.id.as_str()) {
        return false;
    }
    upsert_managed_workspace_def(defs, draft.definition.clone());
    match &draft.special {
        Some(special) => {
            upsert_managed_special_config(specials, special.clone());
        },
        None => {
            let _ = remove_overlay(specials, target_id);
        },
    }
    true
}

/// Each name has one overlay, the last one that was given.
pub proof fn law_overlay_replaces_its_namesake(overlays: Seq<Overlay>, overlay: Overlay)
    ensures
        with_overlay(overlays, overlay).contains(overlay),
        with_overlay(with_overlay(overlays, overlay), overlay) == with_overlay(overlays, overlay),
        with_overlay(overlays, overlay).len() <= overlays.len() + 1,
{
    let p = is_overlay_of(overlay.name);
    let once = with_overlay(overlays, overlay);
    lemma_first_where_found(overlays, p);
    match overlay_place(overlays, overlay.name) {
        Some(i) => {
            assert(once[i] == overlay);
            assert forall|j: int| 0 <= j < i implies !p(#[trigger] once[j]) by {
                assert(once[j] == overlays[j]);
            }
            lemma_first_where(once, p, i);
            assert(once.update(i, overlay) =~= once);
        },
        None => {
            let i = overlays.len() as int;
            assert(once[i] == overlay);
            assert forall|j: int| 0 <= j < i implies !p(#[trigger] once[j]) by {
                assert(once[j] == overlays[j]);
                assert(!p(overlays[j]));
            }
            lemma_first_where(once, p, i);
            assert(once.update(i, overlay) =~= once);
        },
    }
}

} // verus!
