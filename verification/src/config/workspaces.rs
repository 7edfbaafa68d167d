//! Which workspaces a configuration has, and what is known of each.
use vstd::prelude::*;
use crate::config::document::{Managed, ManagedConfig, ManagedConfigDocument};
use crate::config::lua::{default_defs, LuaConfig, Script};
use crate::config::order::{
    def_after, def_views, defined_once, lemma_sorted_once, overlay_after, sort_defs, sort_specials,
    DefOrder,
};
use crate::config::rows::{opt_overlay, ws_row_views, ConfigSource, WorkspaceRow, WsRow};
use crate::config::special::{
    default_overlay, is_overlay_of, overlay_views, Overlay, SpecialWorkspaceConfig,
};
use crate::seqs::{is_last_where, last_where, lemma_last_where_push, sorted};
use crate::text::{copy, same, views};
use crate::wm::state::defines;
use crate::wm::workspace::{plain_def, WorkspaceDefinition, WorkspaceId, WsDef, WsId};

verus! {

/// The last definition of a workspace in a list.
pub open spec fn def_for(defs: Seq<WsDef>, id: WsId) -> Option<WsDef> {
    match last_where(defs, defines(id)) {
        Some(i) => Some(defs[i]),
        None => None,
    }
}

/// The last overlay of a name in a list.
pub open spec fn overlay_for(overlays: Seq<Overlay>, name: Seq<char>) -> Option<Overlay> {
    match last_where(overlays, is_overlay_of(name)) {
        Some(i) => Some(overlays[i]),
        None => None,
    }
}

pub open spec fn opt_def(d: Option<WorkspaceDefinition>) -> Option<WsDef> {
    match d {
        Some(d) => Some(d@),
        None => None,
    }
}

/// Finds the last definition of a workspace.
pub fn find_def(defs: &Vec<WorkspaceDefinition>, id: &WorkspaceId) -> (r: Option<
    WorkspaceDefinition,
>)
    ensures
        opt_def(r) == def_for(def_views(defs@), id@),
{
    let ghost all = def_views(defs@);
    let ghost p = defines(id@);
    let mut found: Option<usize> = None;
    let mut i: usize = 0;
    proof {
        assert(forall|k: int| !is_last_where(all.take(0), p, k));
    }
    while i < defs.len()
        invariant
            all == def_views(defs@),
            p == defines(id@),
            i <= defs@.len(),
            match found {
                Some(k) => k < i && last_where(all.take(i as int), p) == Some(k as int),
                None => last_where(all.take(i as int), p) is None,
            },
        decreases defs.len() - i,
    {
        proof {
            lemma_last_where_push(all.take(i as int), p, all[i as int]);
            assert(all.take(i as int).push(all[i as int]) =~= all.take(i + 1));
        }
        if defs[i].id.is(id) {
            found = Some(i);
        }
        i = i + 1;
    }
    assert(all.take(all.len() as int) =~= all);
    match found {
        Some(k) => Some(defs[k].clone()),
        None => None,
    }
}

/// Finds the last overlay of a name.
pub fn find_special(specials: &Vec<SpecialWorkspaceConfig>, name: &str) -> (r: Option<
    SpecialWorkspaceConfig,
>)
    ensures
        opt_overlay(r) == overlay_for(overlay_views(specials@), name@),
{
    let ghost all = overlay_views(specials@);
    let ghost p = is_overlay_of(name@);
    let mut found: Option<usize> = None;
    let mut i: usize = 0;
    proof {
        assert(forall|k: int| !is_last_where(all.take(0), p, k));
    }
    while i < specials.len()
        invariant
            all == overlay_views(specials@),
            p == is_overlay_of(name@),
            i <= specials@.len(),
            match found {
                Some(k) => k < i && last_where(all.take(i as int), p) == Some(k as int),
                None => last_where(all.take(i as int), p) is None,
            },
        decreases specials.len() - i,
    {
        proof {
            lemma_last_where_push(all.take(i as int), p, all[i as int]);
            assert(all.take(i as int).push(all[i as int]) =~= all.take(i + 1));
        }
        if same(specials[i].name.as_str(), name) {
            found = Some(i);
        }
        i = i + 1;
    }
    assert(all.take(all.len() as int) =~= all);
    match found {
        Some(k) => Some(specials[k].clone()),
        None => None,
    }
}

// --- The workspaces that there are ---

/// Whether a workspace is there without being defined: those from 1 to 10.
pub open spec fn is_standard(id: WsId) -> bool {
    id matches WsId::Numbered(n) && 1 <= n <= 10
}

pub open spec fn id_views(s: Seq<WorkspaceId>) -> Seq<WsId> {
    Seq::new(s.len(), |i: int| s[i]@)
}

pub open spec fn ids_of(defs: Seq<WsDef>) -> Seq<WsId> {
    Seq::new(defs.len(), |i: int| defs[i].id)
}

pub open spec fn special_ids(overlays: Seq<Overlay>) -> Seq<WsId> {
    Seq::new(overlays.len(), |i: int| WsId::Special(overlays[i].name))
}

/// The workspaces of a list that are not standard, each once.
pub open spec fn extra_ids(ids: Seq<WsId>) -> Seq<WsId>
    decreases ids.len(),
{
    if ids.len() == 0 {
        seq![]
    } else {
        let before = extra_ids(ids.drop_last());
        if is_standard(ids.last()) || before.contains(ids.last()) {
            before
        } else {
            before.push(ids.last())
        }
    }
}

fn has_id(ids: &Vec<WorkspaceId>, id: &WorkspaceId) -> (r: bool)
    ensures
        r == id_views(ids@).contains(id@),
{
    let mut i: usize = 0;
    while i < ids.len()
        invariant
            i <= ids@.len(),
            forall|j: int| 0 <= j < i ==> (#[trigger] ids@[j])@ != id@,
        decreases ids.len() - i,
    {
        if ids[i].is(id) {
            assert(id_views(ids@)[i as int] == id@);
            return true;
        }
        i = i + 1;
    }
    proof {
        if id_views(ids@).contains(id@) {
            let j = choose|j: int| 0 <= j < ids@.len() && id_views(ids@)[j] == id@;
            assert(ids@[j]@ == id@);
        }
    }
    false
}

fn id_is_standard(id: &WorkspaceId) -> (r: bool)
    ensures
        r == is_standard(id@),
{
    match id {
        WorkspaceId::Numbered(n) => 1 <= *n && *n <= 10,
        _ => false,
    }
}

fn add_extra(ids: &mut Vec<WorkspaceId>, id: WorkspaceId, Ghost(before): Ghost<Seq<WsId>>)
    requires
        id_views(old(ids)@) == extra_ids(before),
    ensures
        id_views(final(ids)@) == extra_ids(before.push(id@)),
{
    assert(before.push(id@).drop_last() =~= before);
    if !id_is_standard(&id) && !has_id(ids, &id) {
        ids.push(id);
        assert(id_views(ids@) =~= extra_ids(before).push(id@));
    }
}

fn add_extra_defs(ids: &mut Vec<WorkspaceId>, defs: &Vec<WorkspaceDefinition>, Ghost(before): Ghost<
    Seq<WsId>,
>)
    requires
        id_views(old(ids)@) == extra_ids(before),
    ensures
        id_views(final(ids)@) == extra_ids(before + ids_of(def_views(defs@))),
{
    let ghost all = ids_of(def_views(defs@));
    let mut i: usize = 0;
    assert(before + all.take(0) =~= before);
    while i < defs.len()
        invariant
            all == ids_of(def_views(defs@)),
            i <= defs@.len(),
            id_views(ids@) == extra_ids(before + all.take(i as int)),
        decreases defs.len() - i,
    {
        add_extra(ids, defs[i].id.clone(), Ghost(before + all.take(i as int)));
        assert((before + all.take(i as int)).push(all[i as int]) =~= before + all.take(i + 1));
        i = i + 1;
    }
    assert(all.take(all.len() as int) =~= all);
}

fn add_extra_specials(
    ids: &mut Vec<WorkspaceId>,
    specials: &Vec<SpecialWorkspaceConfig>,
    Ghost(before): Ghost<Seq<WsId>>,
)
    requires
        id_views(old(ids)@) == extra_ids(before),
    ensures
        id_views(final(ids)@) == extra_ids(before + special_ids(overlay_views(specials@))),
{
    let ghost all = special_ids(overlay_views(specials@));
    let mut i: usize = 0;
    assert(before + all.take(0) =~= before);
    while i < specials.len()
        invariant
            all == special_ids(overlay_views(specials@)),
            i <= specials@.len(),
            id_views(ids@) == extra_ids(before + all.take(i as int)),
        decreases specials.len() - i,
    {
        add_extra(
            ids,
            WorkspaceId::Special(copy(specials[i].name.as_str())),
            Ghost(before + all.take(i as int)),
        );
        assert((before + all.take(i as int)).push(all[i as int]) =~= before + all.take(i + 1));
        i = i + 1;
    }
    assert(all.take(all.len() as int) =~= all);
}

/// The names of overlays, each once.
pub open spec fn overlay_names(overlays: Seq<Overlay>) -> Seq<Seq<char>>
    decreases overlays.len(),
{
    if overlays.len() == 0 {
        seq![]
    } else {
        let before = overlay_names(overlays.drop_last());
        if before.contains(overlays.last().name) {
            before
        } else {
            before.push(overlays.last().name)
        }
    }
}

fn has_name(names: &Vec<String>, name: &str) -> (r: bool)
    ensures
        r == views(names@).contains(name@),
{
    let mut i: usize = 0;
    while i < names.len()
        invariant
            i <= names@.len(),
            forall|j: int| 0 <= j < i ==> (#[trigger] names@[j])@ != name@,
        decreases names.len() - i,
    {
        if same(names[i].as_str(), name) {
            assert(views(names@)[i as int] == name@);
            return true;
        }
        i = i + 1;
    }
    proof {
        if views(names@).contains(name@) {
            let j = choose|j: int| 0 <= j < names@.len() && views(names@)[j] == name@;
            assert(names@[j]@ == name@);
        }
    }
    false
}

fn add_names(names: &mut Vec<String>, specials: &Vec<SpecialWorkspaceConfig>, Ghost(before): Ghost<
    Seq<Overlay>,
>)
    requires
        views(old(names)@) == overlay_names(before),
    ensures
        views(final(names)@) == overlay_names(before + overlay_views(specials@)),
{
    let ghost all = overlay_views(specials@);
    let mut i: usize = 0;
    assert(before + all.take(0) =~= before);
    while i < specials.len()
        invariant
            all == overlay_views(specials@),
            i <= specials@.len(),
            views(names@) == overlay_names(before + all.take(i as int)),
        decreases specials.len() - i,
    {
        let ghost listed = views(names@);
        proof {
            let now = before + all.take(i + 1);
            assert(now.drop_last() =~= before + all.take(i as int));
            assert(now.last() == specials@[i as int]@);
        }
        if !has_name(names, specials[i].name.as_str()) {
            names.push(copy(specials[i].name.as_str()));
            assert(views(names@) =~= listed.push(all[i as int].name));
        }
        i = i + 1;
    }
    assert(all.take(all.len() as int) =~= all);
}

// --- What holds of each ---

/// The definition that holds: the managed one, or else the script's, or else
/// a plain one.
pub open spec fn resolved_def(managed: Managed, script: Script, id: WsId) -> WsDef {
    match def_for(managed.defs, id) {
        Some(def) => def,
        None => match def_for(script.defs, id) {
            Some(def) => def,
            None => plain_def(id),
        },
    }
}

/// The overlay that holds: the managed one, or else the script's.
pub open spec fn resolved_overlay(managed: Managed, script: Script, name: Seq<char>) -> Option<
    Overlay,
> {
    match overlay_for(managed.overlays, name) {
        Some(overlay) => Some(overlay),
        None => overlay_for(script.overlays, name),
    }
}

/// The workspaces beyond the standard ones.
pub open spec fn further_ids(managed: Managed, script: Script) -> Seq<WsId> {
    extra_ids(mentioned(managed, script))
}

pub open spec fn defs_for(managed: Managed, script: Script, ids: Seq<WsId>) -> Seq<WsDef> {
    Seq::new(ids.len(), |i: int| resolved_def(managed, script, ids[i]))
}

/// All workspaces: the standard ones, and then the others in their order.
pub open spec fn resolved_defs(managed: Managed, script: Script) -> Seq<WsDef> {
    defs_for(managed, script, ids_of(default_defs())) + sorted(
        defs_for(managed, script, further_ids(managed, script)),
        def_after(DefOrder::Kind),
    )
}

pub open spec fn overlays_for(managed: Managed, script: Script, names: Seq<Seq<char>>) -> Seq<
    Overlay,
> {
    Seq::new(names.len(), |i: int| resolved_overlay(managed, script, names[i])->0)
}

/// All overlays by their names.
pub open spec fn resolved_overlays(managed: Managed, script: Script) -> Seq<Overlay> {
    sorted(
        overlays_for(managed, script, overlay_names(managed.overlays + script.overlays)),
        overlay_after(),
    )
}

fn resolve_def(managed: &ManagedConfig, script: &LuaConfig, id: WorkspaceId) -> (r:
    WorkspaceDefinition)
    ensures
        r@ == resolved_def(managed@, script@, id@),
{
    match find_def(&managed.workspace_defs, &id) {
        Some(def) => def,
        None => match find_def(&script.workspace_defs, &id) {
            Some(def) => def,
            None => WorkspaceDefinition::new(id),
        },
    }
}

fn resolve_special(managed: &ManagedConfig, script: &LuaConfig, name: &str) -> (r: Option<
    SpecialWorkspaceConfig,
>)
    ensures
        opt_overlay(r) == resolved_overlay(managed@, script@, name@),
{
    match find_special(&managed.special_configs, name) {
        Some(special) => Some(special),
        None => find_special(&script.special_configs, name),
    }
}

proof fn lemma_overlay_found(overlays: Seq<Overlay>, name: Seq<char>)
    ensures
        overlay_for(overlays, name) is Some <==> exists|i: int|
            0 <= i < overlays.len() && (#[trigger] overlays[i]).name == name,
    decreases overlays.len(),
{
    let p = is_overlay_of(name);
    if overlays.len() == 0 {
        assert(forall|k: int| !is_last_where(overlays, p, k));
    } else {
        let before = overlays.drop_last();
        lemma_overlay_found(before, name);
        lemma_last_where_push(before, p, overlays.last());
        assert(before.push(overlays.last()) =~= overlays);
        if overlays.last().name == name {
            assert(overlays[overlays.len() - 1].name == name);
        }
        if exists|i: int| 0 <= i < before.len() && (#[trigger] before[i]).name == name {
            let i = choose|i: int| 0 <= i < before.len() && (#[trigger] before[i]).name == name;
            assert(overlays[i].name == name);
        }
        if overlays.last().name != name && exists|i: int|
            0 <= i < overlays.len() && (#[trigger] overlays[i]).name == name {
            let i = choose|i: int| 0 <= i < overlays.len() && (#[trigger] overlays[i]).name == name;
            assert(before[i].name == name);
        }
    }
}

/// Every listed name is the name of an overlay.
proof fn lemma_names_named(overlays: Seq<Overlay>, k: int)
    requires
        0 <= k < overlay_names(overlays).len(),
    ensures
        exists|i: int|
            0 <= i < overlays.len() && (#[trigger] overlays[i]).name == overlay_names(overlays)[k],
    decreases overlays.len(),
{
    let before = overlays.drop_last();
    let name = overlay_names(overlays)[k];
    if k < overlay_names(before).len() {
        lemma_names_named(before, k);
        let i = choose|i: int| 0 <= i < before.len() && (#[trigger] before[i]).name == name;
        assert(overlays[i].name == name);
    } else {
        assert(overlays[overlays.len() - 1].name == name);
    }
}

proof fn lemma_listed_overlay(managed: Managed, script: Script, k: int)
    requires
        0 <= k < overlay_names(managed.overlays + script.overlays).len(),
    ensures
        resolved_overlay(
            managed,
            script,
            overlay_names(managed.overlays + script.overlays)[k],
        ) is Some,
{
    let all = managed.overlays + script.overlays;
    let name = overlay_names(all)[k];
    lemma_names_named(all, k);
    let i = choose|i: int| 0 <= i < all.len() && (#[trigger] all[i]).name == name;
    lemma_overlay_found(managed.overlays, name);
    lemma_overlay_found(script.overlays, name);
    if i < managed.overlays.len() {
        assert(managed.overlays[i].name == name);
    } else {
        assert(script.overlays[i - managed.overlays.len()].name == name);
    }
}

fn resolve_ids(managed: &ManagedConfig, script: &LuaConfig, ids: &Vec<WorkspaceId>) -> (r: Vec<
    WorkspaceDefinition,
>)
    ensures
        def_views(r@) == defs_for(managed@, script@, id_views(ids@)),
{
    let ghost all = defs_for(managed@, script@, id_views(ids@));
    let mut defs: Vec<WorkspaceDefinition> = Vec::new();
    let mut i: usize = 0;
    while i < ids.len()
        invariant
            all == defs_for(managed@, script@, id_views(ids@)),
            i <= ids@.len(),
            def_views(defs@) == all.take(i as int),
        decreases ids.len() - i,
    {
        let ghost before = def_views(defs@);
        defs.push(resolve_def(managed, script, ids[i].clone()));
        assert(def_views(defs@) =~= before.push(all[i as int]));
        assert(all.take(i + 1) =~= all.take(i as int).push(all[i as int]));
        i = i + 1;
    }
    assert(all.take(all.len() as int) =~= all);
    defs
}

fn standard_ids() -> (r: Vec<WorkspaceId>)
    ensures
        id_views(r@) == ids_of(default_defs()),
{
    let ghost all = ids_of(default_defs());
    let mut ids: Vec<WorkspaceId> = Vec::new();
    let mut n: u8 = 1;
    while n <= 10
        invariant
            all == ids_of(default_defs()),
            1 <= n <= 11,
            id_views(ids@) == all.take(n - 1),
        decreases 11 - n,
    {
        let ghost before = id_views(ids@);
        ids.push(WorkspaceId::Numbered(n));
        assert(id_views(ids@) =~= before.push(all[n - 1]));
        assert(all.take(n as int) =~= all.take(n - 1).push(all[n - 1]));
        n = n + 1;
    }
    assert(all.take(10) =~= all);
    ids
}

fn list_further_ids(managed: &ManagedConfig, script: &LuaConfig) -> (r: Vec<WorkspaceId>)
    ensures
        id_views(r@) == further_ids(managed@, script@),
{
    let mut ids: Vec<WorkspaceId> = Vec::new();
    let ghost none: Seq<WsId> = Seq::empty();
    let ghost a = ids_of(managed@.defs);
    let ghost b = ids_of(script@.defs);
    let ghost c = special_ids(managed@.overlays);
    assert(id_views(ids@) =~= extra_ids(none));
    add_extra_defs(&mut ids, &managed.workspace_defs, Ghost(none));
    assert(none + a =~= a);
    add_extra_defs(&mut ids, &script.workspace_defs, Ghost(a));
    add_extra_specials(&mut ids, &managed.special_configs, Ghost(a + b));
    add_extra_specials(&mut ids, &script.special_configs, Ghost(a + b + c));
    ids
}

fn list_overlays(managed: &ManagedConfig, script: &LuaConfig) -> (r: Vec<SpecialWorkspaceConfig>)
    ensures
        overlay_views(r@) == resolved_overlays(managed@, script@),
{
    let mut names: Vec<String> = Vec::new();
    let ghost none: Seq<Overlay> = Seq::empty();
    assert(views(names@) =~= overlay_names(none));
    add_names(&mut names, &managed.special_configs, Ghost(none));
    assert(none + managed@.overlays =~= managed@.overlays);
    add_names(&mut names, &script.special_configs, Ghost(managed@.overlays));
    let ghost listed = overlay_names(managed@.overlays + script@.overlays);
    let ghost all = overlays_for(managed@, script@, listed);
    let mut specials: Vec<SpecialWorkspaceConfig> = Vec::new();
    let mut i: usize = 0;
    while i < names.len()
        invariant
            listed == overlay_names(managed@.overlays + script@.overlays),
            views(names@) == listed,
            all == overlays_for(managed@, script@, listed),
            i <= names@.len(),
            overlay_views(specials@) == all.take(i as int),
        decreases names.len() - i,
    {
        let ghost before = overlay_views(specials@);
        proof {
            assert(names@[i as int]@ == views(names@)[i as int]);
            assert(listed.len() == names@.len());
            lemma_listed_overlay(managed@, script@, i as int);
        }
        if let Some(special) = resolve_special(managed, script, names[i].as_str()) {
            specials.push(special);
            assert(overlay_views(specials@) =~= before.push(all[i as int]));
        }
        assert(all.take(i + 1) =~= all.take(i as int).push(all[i as int]));
        i = i + 1;
    }
    assert(all.take(all.len() as int) =~= all);
    sort_specials(specials)
}

// --- How a workspace is listed ---

/// Where a workspace comes from.
pub open spec fn workspace_source(managed: Managed, script: Script, def: WsDef) -> ConfigSource {
    let id = def.id;
    let has_managed_overlay = id matches WsId::Special(name) && overlay_for(
        managed.overlays,
        name,
    ) is Some;
    if def_for(managed.defs, id) is Some || has_managed_overlay {
        ConfigSource::Managed
    } else {
        match id {
            WsId::Numbered(n) => if 1 <= n <= 10 && (match def_for(script.defs, id) {
                Some(d) => d == plain_def(id),
                None => true,
            }) {
                ConfigSource::Default
            } else {
                ConfigSource::Lua
            },
            WsId::Special(name) => if def_for(script.defs, id) is None && overlay_for(
                script.overlays,
                name,
            ) is None && def == plain_def(id) {
                ConfigSource::Default
            } else {
                ConfigSource::Lua
            },
            WsId::Lettered(_) => ConfigSource::Lua,
        }
    }
}

/// The overlay of a special workspace, in the row that lists it.
pub open spec fn shown_overlay(managed: Managed, script: Script, id: WsId) -> Option<Overlay> {
    match id {
        WsId::Special(name) => match resolved_overlay(managed, script, name) {
            Some(overlay) => Some(overlay),
            None => Some(default_overlay(name)),
        },
        _ => None,
    }
}

/// The row of a workspace.
pub open spec fn ws_row(managed: Managed, script: Script, def: WsDef) -> WsRow {
    let source = workspace_source(managed, script, def);
    WsRow {
        id: def.id.text(),
        kind: def.kind,
        source,
        editable: source is Managed,
        def,
        special: shown_overlay(managed, script, def.id),
    }
}

/// The rows of all workspaces, in their order.
pub open spec fn ws_rows(managed: Managed, script: Script) -> Seq<WsRow> {
    let defs = sorted(resolved_defs(managed, script), def_after(DefOrder::Kind));
    Seq::new(defs.len(), |i: int| ws_row(managed, script, defs[i]))
}

pub fn workspace_row_source(
    resolved: &WorkspaceDefinition,
    managed: &ManagedConfig,
    script: &LuaConfig,
) -> (r: ConfigSource)
    ensures
        r == workspace_source(managed@, script@, resolved@),
{
    if find_def(&managed.workspace_defs, &resolved.id).is_some() {
        return ConfigSource::Managed;
    }
    if let WorkspaceId::Special(name) = &resolved.id {
        if find_special(&managed.special_configs, name.as_str()).is_some() {
            return ConfigSource::Managed;
        }
    }
    let asked = find_def(&script.workspace_defs, &resolved.id);
    let plain = WorkspaceDefinition::new(resolved.id.clone());
    match &resolved.id {
        WorkspaceId::Numbered(n) => if 1 <= *n && *n <= 10 && (match &asked {
            Some(d) => d.is(&plain),
            None => true,
        }) {
            ConfigSource::Default
        } else {
            ConfigSource::Lua
        },
        WorkspaceId::Special(name) => if asked.is_none() && find_special(
            &script.special_configs,
            name.as_str(),
        ).is_none() && resolved.is(&plain) {
            ConfigSource::Default
        } else {
            ConfigSource::Lua
        },
        WorkspaceId::Lettered(_) => ConfigSource::Lua,
    }
}

fn build_workspace_row(def: &WorkspaceDefinition, managed: &ManagedConfig, script: &LuaConfig) -> (r:
    WorkspaceRow)
    ensures
        r@ == ws_row(managed@, script@, def@),
{
    let source = workspace_row_source(def, managed, script);
    let special = match &def.id {
        WorkspaceId::Special(name) => match resolve_special(managed, script, name.as_str()) {
            Some(special) => Some(special),
            None => Some(SpecialWorkspaceConfig::default_for(name.as_str())),
        },
        _ => None,
    };
    WorkspaceRow {
        id: def.id.to_string(),
        kind: def.kind,
        source,
        editable: source == ConfigSource::Managed,
        definition: def.clone(),
        special,
    }
}

impl ManagedConfigDocument {
    /// The workspaces and overlays that hold, the managed ones before those
    /// of the script.
    pub fn resolved_workspace_defs_and_specials(&self) -> (r: (
        Vec<WorkspaceDefinition>,
        Vec<SpecialWorkspaceConfig>,
    ))
        ensures
            def_views(r.0@) == resolved_defs(self.managed@, self.effective@),
            overlay_views(r.1@) == resolved_overlays(self.managed@, self.effective@),
    {
        let mut defs = resolve_ids(&self.managed, &self.effective, &standard_ids());
        let further = list_further_ids(&self.managed, &self.effective);
        let mut others = sort_defs(
            resolve_ids(&self.managed, &self.effective, &further),
            DefOrder::Kind,
        );
        let ghost a = def_views(defs@);
        let ghost b = def_views(others@);
        defs.append(&mut others);
        assert(def_views(defs@) =~= a + b);
        (defs, list_overlays(&self.managed, &self.effective))
    }

    pub fn workspace_rows(&self) -> (r: Vec<WorkspaceRow>)
        ensures
            ws_row_views(r@) == ws_rows(self.managed@, self.effective@),
    {
        let (defs, _) = self.resolved_workspace_defs_and_specials();
        let defs = sort_defs(defs, DefOrder::Kind);
        let ghost all = ws_rows(self.managed@, self.effective@);
        let ghost listed = sorted(
            resolved_defs(self.managed@, self.effective@),
            def_after(DefOrder::Kind),
        );
        let mut rows: Vec<WorkspaceRow> = Vec::new();
        let mut i: usize = 0;
        while i < defs.len()
            invariant
                all == ws_rows(self.managed@, self.effective@),
                listed == sorted(
                    resolved_defs(self.managed@, self.effective@),
                    def_after(DefOrder::Kind),
                ),
                def_views(defs@) == listed,
                i <= defs@.len(),
                ws_row_views(rows@) == all.take(i as int),
            decreases defs.len() - i,
        {
            let ghost before = ws_row_views(rows@);
            assert(defs@[i as int]@ == def_views(defs@)[i as int]);
            assert(listed.len() == defs@.len());
            rows.push(build_workspace_row(&defs[i], &self.managed, &self.effective));
            assert(ws_row_views(rows@) =~= before.push(all[i as int]));
            assert(all.take(i + 1) =~= all.take(i as int).push(all[i as int]));
            i = i + 1;
        }
        assert(listed.len() == defs@.len());
        assert(all.take(all.len() as int) =~= all);
        rows
    }
}

// --- What is listed ---

proof fn lemma_def_found(defs: Seq<WsDef>, id: WsId)
    ensures
        def_for(defs, id) matches Some(def) ==> def.id == id,
{
    let p = defines(id);
    if let Some(i) = last_where(defs, p) {
        assert(is_last_where(defs, p, i));
        assert(p(defs[i]));
    }
}

proof fn lemma_resolved_id(managed: Managed, script: Script, id: WsId)
    ensures
        resolved_def(managed, script, id).id == id,
{
    lemma_def_found(managed.defs, id);
    lemma_def_found(script.defs, id);
}

proof fn lemma_extra_ids(ids: Seq<WsId>)
    ensures
        forall|i: int, j: int|
            0 <= i < j < extra_ids(ids).len() ==> #[trigger] extra_ids(ids)[i]
                != #[trigger] extra_ids(ids)[j],
        forall|id: WsId|
            #[trigger] extra_ids(ids).contains(id) <==> ids.contains(id) && !is_standard(id),
    decreases ids.len(),
{
    if ids.len() > 0 {
        let rest = ids.drop_last();
        let x = ids.last();
        lemma_extra_ids(rest);
        let before = extra_ids(rest);
        let after = extra_ids(ids);
        assert forall|id: WsId| #[trigger] after.contains(id) <==> ids.contains(id)
            && !is_standard(id) by {
            if after.contains(id) {
                let k = choose|k: int| 0 <= k < after.len() && after[k] == id;
                if k < before.len() {
                    assert(before[k] == id);
                    assert(before.contains(id));
                    let q = choose|q: int| 0 <= q < rest.len() && rest[q] == id;
                    assert(ids[q] == id);
                } else {
                    assert(ids[ids.len() - 1] == id);
                }
            }
            if ids.contains(id) && !is_standard(id) {
                let q = choose|q: int| 0 <= q < ids.len() && ids[q] == id;
                if q < rest.len() {
                    assert(rest[q] == id);
                    assert(before.contains(id));
                    let k = choose|k: int| 0 <= k < before.len() && before[k] == id;
                    assert(after[k] == id);
                } else if !before.contains(x) {
                    assert(after[before.len() as int] == id);
                }
            }
        }
        assert forall|i: int, j: int| 0 <= i < j < after.len() implies #[trigger] after[i]
            != #[trigger] after[j] by {
            if j == before.len() {
                assert(before.contains(before[i]));
            } else {
                assert(before[i] == after[i] && before[j] == after[j]);
            }
        }
    } else {
        assert(forall|id: WsId| !extra_ids(ids).contains(id));
    }
}

/// All the names that a configuration speaks of.
pub open spec fn mentioned(managed: Managed, script: Script) -> Seq<WsId> {
    ids_of(managed.defs) + ids_of(script.defs) + special_ids(managed.overlays) + special_ids(
        script.overlays,
    )
}

/// Every workspace is listed once: those from 1 to 10 and each that the
/// configuration speaks of, with the definition that holds.
pub proof fn law_each_workspace_listed_once(managed: Managed, script: Script)
    ensures
        defined_once(resolved_defs(managed, script)),
        forall|d: WsDef| #[trigger]
            resolved_defs(managed, script).contains(d) <==> (is_standard(d.id) || mentioned(
                managed,
                script,
            ).contains(d.id)) && d == resolved_def(managed, script, d.id),
{
    let usual = ids_of(default_defs());
    let first = defs_for(managed, script, usual);
    let further = further_ids(managed, script);
    let rest = defs_for(managed, script, further);
    let gt = def_after(DefOrder::Kind);
    let listed = sorted(rest, gt);
    let all = resolved_defs(managed, script);
    lemma_extra_ids(mentioned(managed, script));
    assert forall|i: int| 0 <= i < first.len() implies (#[trigger] first[i]).id == usual[i] by {
        lemma_resolved_id(managed, script, usual[i]);
    }
    assert forall|i: int| 0 <= i < rest.len() implies (#[trigger] rest[i]).id == further[i] by {
        lemma_resolved_id(managed, script, further[i]);
    }
    lemma_sorted_once(rest, gt);
    assert forall|k: int| 0 <= k < listed.len() implies ({
        let d = #[trigger] listed[k];
        &&& !is_standard(d.id)
        &&& mentioned(managed, script).contains(d.id)
        &&& d == resolved_def(managed, script, d.id)
    }) by {
        assert(listed.contains(listed[k]));
        let q = choose|q: int| 0 <= q < rest.len() && rest[q] == listed[k];
        assert(further.contains(further[q]));
    }
    assert forall|i: int, j: int| 0 <= i < j < all.len() implies (#[trigger] all[i]).id != (
    #[trigger] all[j]).id by {
        if j < first.len() {
            assert(all[i] == first[i] && all[j] == first[j]);
            assert(usual[i] != usual[j]);
        } else if i >= first.len() {
            assert(all[i] == listed[i - first.len()] && all[j] == listed[j - first.len()]);
        } else {
            assert(all[i] == first[i] && all[j] == listed[j - first.len()]);
            assert(is_standard(usual[i]));
        }
    }
    assert forall|d: WsDef| #[trigger] all.contains(d) <==> (is_standard(d.id) || mentioned(
        managed,
        script,
    ).contains(d.id)) && d == resolved_def(managed, script, d.id) by {
        if all.contains(d) {
            let k = choose|k: int| 0 <= k < all.len() && all[k] == d;
            if k < first.len() {
                assert(first[k] == d);
                assert(is_standard(usual[k]));
            } else {
                assert(listed[k - first.len()] == d);
            }
        }
        if d == resolved_def(managed, script, d.id) {
            if is_standard(d.id) {
                let n = d.id->Numbered_0;
                assert(usual[n - 1] == d.id);
                assert(all[n - 1] == first[n - 1]);
            } else if mentioned(managed, script).contains(d.id) {
                assert(further.contains(d.id));
                let q = choose|q: int| 0 <= q < further.len() && further[q] == d.id;
                assert(rest[q] == d);
                assert(listed.contains(d));
                let k = choose|k: int| 0 <= k < listed.len() && listed[k] == d;
                assert(all[first.len() + k] == d);
            }
        }
    }
}

} // verus!
