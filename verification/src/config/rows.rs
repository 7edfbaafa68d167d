//! The lists that the settings window shows.
use vstd::prelude::*;
use crate::config::keybinds::{
    bind_views, format_action, format_key_spec, has_bind, spec_parts, LuaKeybind,
};
use crate::config::numbers::{lua_number, number_text};
use crate::config::rules::{format_rule_action, format_rule_match, Rule, WindowRule};
use crate::config::special::{Overlay, SpecialWorkspaceConfig};
use crate::seqs::left_out;
use crate::text::{ascii_uppered, copy, decimal, join, joined, number, to_ascii_uppercase, views};
use crate::wm::input::{Bind, Key, Modifiers};
use crate::wm::state::rule_views;
use crate::wm::workspace::{WorkspaceDefinition, WorkspaceKind, WsDef};

verus! {

/// Where an entry comes from.
#[derive(Clone, Copy, Debug, PartialEq, Eq, Structural)]
pub enum ConfigSource {
    /// The part that the settings window writes.
    Managed,
    /// The rest of the script.
    Lua,
    Default,
}

impl ConfigSource {
    /// The source in an identifier.
    pub open spec fn name(self) -> Seq<char> {
        match self {
            ConfigSource::Managed => "managed"@,
            ConfigSource::Lua => "lua"@,
            ConfigSource::Default => "default"@,
        }
    }

    /// The source as it is shown.
    pub open spec fn shown(self) -> Seq<char> {
        match self {
            ConfigSource::Managed => "Managed"@,
            ConfigSource::Lua => "Lua"@,
            ConfigSource::Default => "Default"@,
        }
    }

    pub fn as_str(&self) -> (r: &'static str)
        ensures
            r@ == self.name(),
    {
        match self {
            ConfigSource::Managed => "managed",
            ConfigSource::Lua => "lua",
            ConfigSource::Default => "default",
        }
    }

    pub fn label(&self) -> (r: &'static str)
        ensures
            r@ == self.shown(),
    {
        match self {
            ConfigSource::Managed => "Managed",
            ConfigSource::Lua => "Lua",
            ConfigSource::Default => "Default",
        }
    }
}

// --- Key bindings ---

/// A key binding as it is listed.
#[derive(Debug, PartialEq, Eq)]
pub struct KeybindRow {
    pub id: String,
    pub shortcut: String,
    pub action: String,
    pub source: ConfigSource,
    pub editable: bool,
    pub keybind: LuaKeybind,
}

/// A listed key binding as a mathematical value.
pub struct BindRow {
    pub id: Seq<char>,
    pub shortcut: Seq<char>,
    pub action: Seq<char>,
    pub source: ConfigSource,
    pub editable: bool,
    pub bind: Bind,
}

impl View for KeybindRow {
    type V = BindRow;

    open spec fn view(&self) -> BindRow {
        BindRow {
            id: self.id@,
            shortcut: self.shortcut@,
            action: self.action@,
            source: self.source,
            editable: self.editable,
            bind: self.keybind@,
        }
    }
}

impl Clone for KeybindRow {
    fn clone(&self) -> (r: Self)
        ensures
            r@ == self@,
    {
        KeybindRow {
            id: copy(self.id.as_str()),
            shortcut: copy(self.shortcut.as_str()),
            action: copy(self.action.as_str()),
            source: self.source,
            editable: self.editable,
            keybind: self.keybind.clone(),
        }
    }
}

impl KeybindRow {
    pub fn source_label(&self) -> (r: &'static str)
        ensures
            r@ == self.source.shown(),
    {
        self.source.label()
    }
}

pub open spec fn bind_row_views(s: Seq<KeybindRow>) -> Seq<BindRow> {
    Seq::new(s.len(), |i: int| s[i]@)
}

/// The identifier of the entry at an index of its source.
pub open spec fn row_id(source: ConfigSource, index: nat) -> Seq<char> {
    source.name() + ":"@ + decimal(index)
}

/// The row of a binding.
pub open spec fn bind_row(
    bind: Bind,
    source: ConfigSource,
    editable: bool,
    index: nat,
    mod_key: Modifiers,
) -> BindRow {
    BindRow {
        id: row_id(source, index),
        shortcut: joined(spec_parts(bind.modifiers, bind.key, mod_key), "+"@),
        action: bind.action.text(),
        source,
        editable,
        bind,
    }
}

/// The rows of bindings from one source.
pub open spec fn bind_rows(
    binds: Seq<Bind>,
    source: ConfigSource,
    mod_key: Modifiers,
) -> Seq<BindRow> {
    Seq::new(
        binds.len(),
        |i: int| bind_row(binds[i], source, source is Managed, i as nat, mod_key),
    )
}

fn keybind_row(
    keybind: &LuaKeybind,
    source: ConfigSource,
    editable: bool,
    index: usize,
    mod_key: Modifiers,
) -> (r: KeybindRow)
    ensures
        r@ == bind_row(keybind@, source, editable, index as nat, mod_key),
{
    let mut id = copy(source.as_str());
    id.push_str(":");
    id.push_str(number(index as u64).as_str());
    KeybindRow {
        id,
        shortcut: format_key_spec(keybind.modifiers, keybind.key, mod_key),
        action: format_action(&keybind.action),
        source,
        editable,
        keybind: keybind.clone(),
    }
}

pub fn build_keybind_rows(
    keybinds: &Vec<LuaKeybind>,
    source: ConfigSource,
    mod_key: Modifiers,
) -> (r: Vec<KeybindRow>)
    ensures
        bind_row_views(r@) == bind_rows(bind_views(keybinds@), source, mod_key),
{
    let ghost all = bind_rows(bind_views(keybinds@), source, mod_key);
    let mut rows: Vec<KeybindRow> = Vec::new();
    let mut i: usize = 0;
    while i < keybinds.len()
        invariant
            all == bind_rows(bind_views(keybinds@), source, mod_key),
            i <= keybinds@.len(),
            bind_row_views(rows@) == all.take(i as int),
        decreases keybinds.len() - i,
    {
        let ghost before = bind_row_views(rows@);
        rows.push(
            keybind_row(&keybinds[i], source, source == ConfigSource::Managed, i, mod_key),
        );
        assert(bind_row_views(rows@) =~= before.push(all[i as int]));
        assert(all.take(i + 1) =~= all.take(i as int).push(all[i as int]));
        i = i + 1;
    }
    assert(all.take(all.len() as int) =~= all);
    rows
}

/// The source of a binding outside the managed part.
pub open spec fn outer_source(bind: Bind, defaults: Seq<Bind>) -> ConfigSource {
    if defaults.contains(bind) {
        ConfigSource::Default
    } else {
        ConfigSource::Lua
    }
}

/// The rows of the bindings that are not managed.
pub open spec fn outer_bind_rows(
    effective: Seq<Bind>,
    managed: Seq<Bind>,
    defaults: Seq<Bind>,
    mod_key: Modifiers,
) -> Seq<BindRow> {
    let outer = left_out(effective, managed);
    Seq::new(
        outer.len(),
        |i: int|
            bind_row(outer[i], outer_source(outer[i], defaults), false, i as nat, mod_key),
    )
}

/// Lists the bindings that are not managed.
pub fn build_outer_keybind_rows(
    effective: &Vec<LuaKeybind>,
    managed: &Vec<LuaKeybind>,
    defaults: &Vec<LuaKeybind>,
    mod_key: Modifiers,
) -> (r: Vec<KeybindRow>)
    ensures
        bind_row_views(r@) == outer_bind_rows(
            bind_views(effective@),
            bind_views(managed@),
            bind_views(defaults@),
            mod_key,
        ),
{
    let ghost all = bind_views(effective@);
    let ghost owned = bind_views(managed@);
    let ghost usual = bind_views(defaults@);
    let mut rows: Vec<KeybindRow> = Vec::new();
    let mut i: usize = 0;
    assert(bind_row_views(rows@) =~= outer_bind_rows(all.take(0), owned, usual, mod_key));
    while i < effective.len()
        invariant
            all == bind_views(effective@),
            owned == bind_views(managed@),
            usual == bind_views(defaults@),
            i <= effective@.len(),
            bind_row_views(rows@) == outer_bind_rows(all.take(i as int), owned, usual, mod_key),
        decreases effective.len() - i,
    {
        proof {
            assert(all.take(i + 1).drop_last() =~= all.take(i as int));
            assert(all.take(i + 1).last() == effective@[i as int]@);
        }
        if !has_bind(managed, &effective[i]) {
            let source = if has_bind(defaults, &effective[i]) {
                ConfigSource::Default
            } else {
                ConfigSource::Lua
            };
            let ghost before = bind_row_views(rows@);
            let n: usize = rows.len();
            rows.push(keybind_row(&effective[i], source, false, n, mod_key));
            proof {
                let now = outer_bind_rows(all.take(i + 1), owned, usual, mod_key);
                let outer = left_out(all.take(i as int), owned);
                assert(bind_row_views(rows@).last() == bind_row(
                    all[i as int],
                    source,
                    false,
                    n as nat,
                    mod_key,
                ));
                assert(left_out(all.take(i + 1), owned) == outer.push(all[i as int]));
                assert(before.len() == n);
                assert(now =~= before.push(bind_row_views(rows@).last()));
                assert(bind_row_views(rows@) =~= now);
            }
        }
        i = i + 1;
    }
    assert(all.take(all.len() as int) =~= all);
    rows
}

/// What two bindings must share to be in each other's way.
pub open spec fn signature(bind: Bind) -> (Modifiers, Key) {
    (bind.modifiers, bind.key)
}

pub fn keybind_signature(keybind: &LuaKeybind) -> (r: (Modifiers, Key))
    ensures
        r == signature(keybind@),
{
    (keybind.modifiers, keybind.key)
}

/// Whether a row of a list has a signature.
pub open spec fn has_signature(rows: Seq<BindRow>, sign: (Modifiers, Key)) -> bool {
    exists|i: int| 0 <= i < rows.len() && signature((#[trigger] rows[i]).bind) == sign
}

fn is_taken(rows: &Vec<KeybindRow>, keybind: &LuaKeybind) -> (r: bool)
    ensures
        r == has_signature(bind_row_views(rows@), signature(keybind@)),
{
    let ghost all = bind_row_views(rows@);
    let mut i: usize = 0;
    while i < rows.len()
        invariant
            all == bind_row_views(rows@),
            i <= rows@.len(),
            forall|j: int|
                0 <= j < i ==> signature((#[trigger] all[j]).bind) != signature(keybind@),
        decreases rows.len() - i,
    {
        assert(all[i as int] == rows@[i as int]@);
        if rows[i].keybind.modifiers == keybind.modifiers && rows[i].keybind.key == keybind.key {
            return true;
        }
        i = i + 1;
    }
    false
}

/// Of rows with one signature the last stays.
pub open spec fn kept_last(rows: Seq<BindRow>) -> Seq<BindRow>
    decreases rows.len(),
{
    if rows.len() == 0 {
        seq![]
    } else {
        let rest = kept_last(rows.drop_first());
        if has_signature(rest, signature(rows[0].bind)) {
            rest
        } else {
            seq![rows[0]] + rest
        }
    }
}

/// Of rows with one signature the first stays.
pub open spec fn kept_first(rows: Seq<BindRow>) -> Seq<BindRow>
    decreases rows.len(),
{
    if rows.len() == 0 {
        seq![]
    } else {
        let before = kept_first(rows.drop_last());
        if has_signature(before, signature(rows.last().bind)) {
            before
        } else {
            before.push(rows.last())
        }
    }
}

pub fn dedupe_keybind_rows_keep_last(rows: &Vec<KeybindRow>) -> (r: Vec<KeybindRow>)
    ensures
        bind_row_views(r@) == kept_last(bind_row_views(rows@)),
{
    let ghost all = bind_row_views(rows@);
    let mut kept: Vec<KeybindRow> = Vec::new();
    let mut i: usize = rows.len();
    assert(bind_row_views(kept@) =~= kept_last(all.skip(i as int)));
    while i > 0
        invariant
            all == bind_row_views(rows@),
            i <= rows@.len(),
            bind_row_views(kept@) == kept_last(all.skip(i as int)),
        decreases i,
    {
        i = i - 1;
        let ghost before = bind_row_views(kept@);
        proof {
            assert(all.skip(i as int).drop_first() =~= all.skip(i + 1));
            assert(all.skip(i as int)[0] == rows@[i as int]@);
        }
        if !is_taken(&kept, &rows[i].keybind) {
            kept.insert(0, rows[i].clone());
            assert(bind_row_views(kept@) =~= seq![all[i as int]] + before);
        }
    }
    assert(all.skip(0) =~= all);
    kept
}

/// The rows of one source.
pub open spec fn rows_from(rows: Seq<BindRow>, source: ConfigSource) -> Seq<BindRow>
    decreases rows.len(),
{
    if rows.len() == 0 {
        seq![]
    } else {
        let before = rows_from(rows.drop_last(), source);
        if rows.last().source == source {
            before.push(rows.last())
        } else {
            before
        }
    }
}

fn pick_rows(rows: &Vec<KeybindRow>, source: ConfigSource) -> (r: Vec<KeybindRow>)
    ensures
        bind_row_views(r@) == rows_from(bind_row_views(rows@), source),
{
    let ghost all = bind_row_views(rows@);
    let mut picked: Vec<KeybindRow> = Vec::new();
    let mut i: usize = 0;
    assert(bind_row_views(picked@) =~= rows_from(all.take(0), source));
    while i < rows.len()
        invariant
            all == bind_row_views(rows@),
            i <= rows@.len(),
            bind_row_views(picked@) == rows_from(all.take(i as int), source),
        decreases rows.len() - i,
    {
        let ghost before = bind_row_views(picked@);
        proof {
            assert(all.take(i + 1).drop_last() =~= all.take(i as int));
            assert(all.take(i + 1).last() == rows@[i as int]@);
        }
        if rows[i].source == source {
            picked.push(rows[i].clone());
            assert(bind_row_views(picked@) =~= before.push(all[i as int]));
        }
        i = i + 1;
    }
    assert(all.take(all.len() as int) =~= all);
    picked
}

/// The rows that hold: of each layer the last of every signature, and of the
/// layers the managed one before the script and that before the defaults.
pub open spec fn layered(managed: Seq<BindRow>, outer: Seq<BindRow>) -> Seq<BindRow> {
    kept_first(
        kept_last(managed) + kept_last(rows_from(outer, ConfigSource::Lua)) + kept_last(
            rows_from(outer, ConfigSource::Default),
        ),
    )
}

fn add_untaken(rows: &mut Vec<KeybindRow>, more: &Vec<KeybindRow>, Ghost(before): Ghost<
    Seq<BindRow>,
>)
    requires
        bind_row_views(old(rows)@) == kept_first(before),
    ensures
        bind_row_views(final(rows)@) == kept_first(before + bind_row_views(more@)),
{
    let ghost all = bind_row_views(more@);
    let mut i: usize = 0;
    assert(before + all.take(0) =~= before);
    while i < more.len()
        invariant
            all == bind_row_views(more@),
            i <= more@.len(),
            bind_row_views(rows@) == kept_first(before + all.take(i as int)),
        decreases more.len() - i,
    {
        let ghost kept = bind_row_views(rows@);
        proof {
            let now = before + all.take(i + 1);
            assert(now.drop_last() =~= before + all.take(i as int));
            assert(now.last() == more@[i as int]@);
        }
        if !is_taken(rows, &more[i].keybind) {
            rows.push(more[i].clone());
            assert(bind_row_views(rows@) =~= kept.push(all[i as int]));
        }
        i = i + 1;
    }
    assert(all.take(all.len() as int) =~= all);
}

pub fn resolve_keybind_rows(
    managed_rows: &Vec<KeybindRow>,
    external_rows: &Vec<KeybindRow>,
) -> (r: Vec<KeybindRow>)
    ensures
        bind_row_views(r@) == layered(bind_row_views(managed_rows@), bind_row_views(external_rows@)),
{
    let managed = dedupe_keybind_rows_keep_last(managed_rows);
    let script = dedupe_keybind_rows_keep_last(&pick_rows(external_rows, ConfigSource::Lua));
    let usual = dedupe_keybind_rows_keep_last(&pick_rows(external_rows, ConfigSource::Default));
    let ghost a = bind_row_views(managed@);
    let ghost b = bind_row_views(script@);
    let mut rows: Vec<KeybindRow> = Vec::new();
    assert(bind_row_views(rows@) =~= kept_first(Seq::empty()));
    let ghost none: Seq<BindRow> = Seq::empty();
    add_untaken(&mut rows, &managed, Ghost(none));
    assert(none + a =~= a);
    add_untaken(&mut rows, &script, Ghost(a));
    add_untaken(&mut rows, &usual, Ghost(a + b));
    rows
}

// --- What a resolution gives ---

/// The row that a signature leads to in a list: the last one with it.
pub open spec fn last_for(rows: Seq<BindRow>, sign: (Modifiers, Key)) -> Option<BindRow>
    decreases rows.len(),
{
    if rows.len() == 0 {
        None
    } else if signature(rows.last().bind) == sign {
        Some(rows.last())
    } else {
        last_for(rows.drop_last(), sign)
    }
}

spec fn first_for(rows: Seq<BindRow>, sign: (Modifiers, Key)) -> Option<BindRow>
    decreases rows.len(),
{
    if rows.len() == 0 {
        None
    } else if signature(rows[0].bind) == sign {
        Some(rows[0])
    } else {
        first_for(rows.drop_first(), sign)
    }
}

/// Whether no two rows share a signature.
pub open spec fn signed_once(rows: Seq<BindRow>) -> bool {
    forall|i: int, j: int|
        0 <= i < j < rows.len() ==> signature((#[trigger] rows[i]).bind) != signature(
            (#[trigger] rows[j]).bind,
        )
}

pub proof fn lemma_last_for(rows: Seq<BindRow>, sign: (Modifiers, Key))
    ensures
        last_for(rows, sign) is Some <==> has_signature(rows, sign),
        last_for(rows, sign) matches Some(row) ==> signature(row.bind) == sign && rows.contains(
            row,
        ),
    decreases rows.len(),
{
    if rows.len() > 0 {
        let before = rows.drop_last();
        lemma_last_for(before, sign);
        if signature(rows.last().bind) != sign {
            if has_signature(before, sign) {
                let i = choose|i: int|
                    0 <= i < before.len() && signature((#[trigger] before[i]).bind) == sign;
                assert(signature(rows[i].bind) == sign);
                let k = choose|k: int|
                    0 <= k < before.len() && before[k] == last_for(before, sign)->0;
                assert(rows[k] == last_for(rows, sign)->0);
            }
            if has_signature(rows, sign) {
                let i = choose|i: int|
                    0 <= i < rows.len() && signature((#[trigger] rows[i]).bind) == sign;
                assert(signature(before[i].bind) == sign);
            }
        } else {
            assert(signature(rows[rows.len() - 1].bind) == sign);
        }
    }
}

proof fn lemma_first_for(rows: Seq<BindRow>, sign: (Modifiers, Key))
    ensures
        first_for(rows, sign) is Some <==> has_signature(rows, sign),
    decreases rows.len(),
{
    if rows.len() > 0 {
        let rest = rows.drop_first();
        lemma_first_for(rest, sign);
        if signature(rows[0].bind) != sign {
            if has_signature(rest, sign) {
                let i = choose|i: int|
                    0 <= i < rest.len() && signature((#[trigger] rest[i]).bind) == sign;
                assert(signature(rows[i + 1].bind) == sign);
            }
            if has_signature(rows, sign) {
                let i = choose|i: int|
                    0 <= i < rows.len() && signature((#[trigger] rows[i]).bind) == sign;
                assert(signature(rest[i - 1].bind) == sign);
            }
        } else {
            assert(signature(rows[0].bind) == sign);
        }
    }
}

/// Appending: the last comes from the second list if that has it.
proof fn lemma_last_for_append(a: Seq<BindRow>, b: Seq<BindRow>, sign: (Modifiers, Key))
    ensures
        last_for(a + b, sign) == (match last_for(b, sign) {
            Some(row) => Some(row),
            None => last_for(a, sign),
        }),
    decreases b.len(),
{
    if b.len() == 0 {
        assert(a + b =~= a);
    } else {
        assert((a + b).drop_last() =~= a + b.drop_last());
        assert((a + b).last() == b.last());
        lemma_last_for_append(a, b.drop_last(), sign);
    }
}

/// Appending: the first comes from the first list if that has it.
proof fn lemma_first_for_append(a: Seq<BindRow>, b: Seq<BindRow>, sign: (Modifiers, Key))
    ensures
        first_for(a + b, sign) == (match first_for(a, sign) {
            Some(row) => Some(row),
            None => first_for(b, sign),
        }),
    decreases a.len(),
{
    if a.len() == 0 {
        assert(a + b =~= b);
    } else {
        assert((a + b).drop_first() =~= a.drop_first() + b);
        assert((a + b)[0] == a[0]);
        lemma_first_for_append(a.drop_first(), b, sign);
    }
}

/// Where no signature occurs twice, first and last are the same.
proof fn lemma_first_is_last(rows: Seq<BindRow>, sign: (Modifiers, Key))
    requires
        signed_once(rows),
    ensures
        first_for(rows, sign) == last_for(rows, sign),
    decreases rows.len(),
{
    if rows.len() > 0 {
        let before = rows.drop_last();
        assert forall|i: int, j: int| 0 <= i < j < before.len() implies signature(
            (#[trigger] before[i]).bind,
        ) != signature((#[trigger] before[j]).bind) by {
            assert(before[i] == rows[i] && before[j] == rows[j]);
        }
        lemma_first_is_last(before, sign);
        lemma_first_for_append(before, seq![rows.last()], sign);
        assert(before + seq![rows.last()] =~= rows);
        lemma_last_for(before, sign);
        let one = seq![rows.last()];
        assert(one.drop_first() =~= seq![]);
        reveal_with_fuel(first_for, 2);
        if signature(rows.last().bind) == sign && has_signature(before, sign) {
            let i = choose|i: int|
                0 <= i < before.len() && signature((#[trigger] before[i]).bind) == sign;
            assert(rows[i] == before[i]);
        }
    }
}

proof fn lemma_kept_last(rows: Seq<BindRow>, sign: (Modifiers, Key))
    ensures
        last_for(kept_last(rows), sign) == last_for(rows, sign),
        signed_once(kept_last(rows)),
    decreases rows.len(),
{
    if rows.len() > 0 {
        let rest = kept_last(rows.drop_first());
        let first = seq![rows[0]];
        lemma_kept_last(rows.drop_first(), sign);
        lemma_last_for_append(first, rows.drop_first(), sign);
        assert(first + rows.drop_first() =~= rows);
        assert(first.drop_last() =~= seq![]);
        reveal_with_fuel(last_for, 2);
        assert(last_for(first, sign) == if signature(rows[0].bind) == sign {
            Some(rows[0])
        } else {
            None
        });
        lemma_last_for(rest, sign);
        if !has_signature(rest, signature(rows[0].bind)) {
            lemma_last_for_append(first, rest, sign);
            let kept = first + rest;
            assert forall|i: int, j: int| 0 <= i < j < kept.len() implies signature(
                (#[trigger] kept[i]).bind,
            ) != signature((#[trigger] kept[j]).bind) by {
                assert(kept[j] == rest[j - 1]);
                if i > 0 {
                    assert(kept[i] == rest[i - 1]);
                }
            }
        }
    }
}

proof fn lemma_kept_first(rows: Seq<BindRow>, sign: (Modifiers, Key))
    ensures
        first_for(kept_first(rows), sign) == first_for(rows, sign),
        signed_once(kept_first(rows)),
    decreases rows.len(),
{
    if rows.len() > 0 {
        let before = kept_first(rows.drop_last());
        let last = seq![rows.last()];
        lemma_kept_first(rows.drop_last(), sign);
        lemma_first_for_append(rows.drop_last(), last, sign);
        assert(rows.drop_last() + last =~= rows);
        assert(last.drop_first() =~= seq![]);
        reveal_with_fuel(first_for, 2);
        assert(first_for(last, sign) == if signature(rows.last().bind) == sign {
            Some(rows.last())
        } else {
            None
        });
        lemma_first_for(before, sign);
        if !has_signature(before, signature(rows.last().bind)) {
            lemma_first_for_append(before, last, sign);
            let kept = before.push(rows.last());
            assert(kept =~= before + last);
            assert forall|i: int, j: int| 0 <= i < j < kept.len() implies signature(
                (#[trigger] kept[i]).bind,
            ) != signature((#[trigger] kept[j]).bind) by {
                assert(kept[i] == before[i]);
                if j < before.len() {
                    assert(kept[j] == before[j]);
                }
            }
        }
    }
}

/// A key combination does one thing: what the managed part says last, or else
/// what the script says last, or else what it does by default.
pub proof fn law_managed_binding_wins(
    managed: Seq<BindRow>,
    outer: Seq<BindRow>,
    sign: (Modifiers, Key),
)
    ensures
        signed_once(layered(managed, outer)),
        last_for(layered(managed, outer), sign) == (match last_for(managed, sign) {
            Some(row) => Some(row),
            None => match last_for(rows_from(outer, ConfigSource::Lua), sign) {
                Some(row) => Some(row),
                None => last_for(rows_from(outer, ConfigSource::Default), sign),
            },
        }),
{
    let script = rows_from(outer, ConfigSource::Lua);
    let usual = rows_from(outer, ConfigSource::Default);
    let a = kept_last(managed);
    let b = kept_last(script);
    let c = kept_last(usual);
    lemma_kept_last(managed, sign);
    lemma_kept_last(script, sign);
    lemma_kept_last(usual, sign);
    lemma_kept_first(a + b + c, sign);
    lemma_first_for_append(a + b, c, sign);
    lemma_first_for_append(a, b, sign);
    lemma_first_is_last(a, sign);
    lemma_first_is_last(b, sign);
    lemma_first_is_last(c, sign);
    lemma_first_is_last(layered(managed, outer), sign);
}

// --- Rules ---

/// A rule as it is listed.
#[derive(Debug, PartialEq)]
pub struct RuleRow {
    pub id: String,
    pub name: String,
    pub enabled: bool,
    pub source: ConfigSource,
    pub editable: bool,
    pub rule: WindowRule,
}

/// A listed rule as a mathematical value.
pub struct RuleEntry {
    pub id: Seq<char>,
    pub name: Seq<char>,
    pub enabled: bool,
    pub source: ConfigSource,
    pub editable: bool,
    pub rule: Rule,
}

impl View for RuleRow {
    type V = RuleEntry;

    open spec fn view(&self) -> RuleEntry {
        RuleEntry {
            id: self.id@,
            name: self.name@,
            enabled: self.enabled,
            source: self.source,
            editable: self.editable,
            rule: self.rule@,
        }
    }
}

impl RuleRow {
    /// Which windows the rule is for.
    pub fn when_summary(&self) -> (r: String)
        ensures
            r@ == self.rule@.condition_text(),
    {
        format_rule_match(&self.rule)
    }

    /// What the rule does.
    pub fn then_summary(&self) -> (r: String)
        ensures
            r@ == self.rule@.effect_text(),
    {
        format_rule_action(&self.rule)
    }

    pub fn source_label(&self) -> (r: &'static str)
        ensures
            r@ == self.source.shown(),
    {
        self.source.label()
    }
}

pub open spec fn rule_entries(s: Seq<RuleRow>) -> Seq<RuleEntry> {
    Seq::new(s.len(), |i: int| s[i]@)
}

/// The entry of the rule at an index.
pub open spec fn rule_entry(rule: Rule, source: ConfigSource, index: nat) -> RuleEntry {
    RuleEntry {
        id: rule.effective_id(index),
        name: rule.effective_name(index),
        enabled: rule.enabled,
        source,
        editable: source is Managed,
        rule,
    }
}

/// The entries of rules from one source.
pub open spec fn rule_list(rules: Seq<Rule>, source: ConfigSource) -> Seq<RuleEntry> {
    Seq::new(rules.len(), |i: int| rule_entry(rules[i], source, i as nat))
}

pub fn build_rule_rows(rules: &Vec<WindowRule>, source: ConfigSource) -> (r: Vec<RuleRow>)
    ensures
        rule_entries(r@) == rule_list(rule_views(rules@), source),
{
    let ghost all = rule_list(rule_views(rules@), source);
    let n: usize = rules.len();
    let mut rows: Vec<RuleRow> = Vec::new();
    let mut i: usize = 0;
    while i < n
        invariant
            n == rules@.len(),
            all == rule_list(rule_views(rules@), source),
            i <= n,
            rule_entries(rows@) == all.take(i as int),
        decreases n - i,
    {
        let ghost before = rule_entries(rows@);
        rows.push(
            RuleRow {
                id: rules[i].effective_id(i),
                name: rules[i].effective_name(i),
                enabled: rules[i].enabled,
                source,
                editable: source == ConfigSource::Managed,
                rule: rules[i].clone(),
            },
        );
        assert(rule_entries(rows@) =~= before.push(all[i as int]));
        assert(all.take(i + 1) =~= all.take(i as int).push(all[i as int]));
        i = i + 1;
    }
    assert(all.take(all.len() as int) =~= all);
    rows
}

/// Whether a list has a rule.
pub fn has_rule(list: &Vec<WindowRule>, rule: &WindowRule) -> (r: bool)
    ensures
        r == rule_views(list@).contains(rule@),
{
    let mut i: usize = 0;
    while i < list.len()
        invariant
            i <= list@.len(),
            forall|j: int| 0 <= j < i ==> (#[trigger] list@[j])@ != rule@,
        decreases list.len() - i,
    {
        if list[i].is(rule) {
            assert(rule_views(list@)[i as int] == rule@);
            return true;
        }
        i = i + 1;
    }
    proof {
        if rule_views(list@).contains(rule@) {
            let j = choose|j: int| 0 <= j < list@.len() && rule_views(list@)[j] == rule@;
            assert(list@[j]@ == rule@);
        }
    }
    false
}

/// The rules that are not managed.
pub fn outer_rules(effective: &Vec<WindowRule>, managed: &Vec<WindowRule>) -> (r: Vec<WindowRule>)
    ensures
        rule_views(r@) == left_out(rule_views(effective@), rule_views(managed@)),
{
    let ghost all = rule_views(effective@);
    let ghost owned = rule_views(managed@);
    let mut rules: Vec<WindowRule> = Vec::new();
    let mut i: usize = 0;
    assert(rule_views(rules@) =~= left_out(all.take(0), owned));
    while i < effective.len()
        invariant
            all == rule_views(effective@),
            owned == rule_views(managed@),
            i <= effective@.len(),
            rule_views(rules@) == left_out(all.take(i as int), owned),
        decreases effective.len() - i,
    {
        let ghost before = rule_views(rules@);
        proof {
            assert(all.take(i + 1).drop_last() =~= all.take(i as int));
            assert(all.take(i + 1).last() == effective@[i as int]@);
        }
        if !has_rule(managed, &effective[i]) {
            rules.push(effective[i].clone());
            assert(rule_views(rules@) =~= before.push(all[i as int]));
        }
        i = i + 1;
    }
    assert(all.take(all.len() as int) =~= all);
    rules
}

/// Copies rules.
pub fn copy_rules(list: &Vec<WindowRule>) -> (r: Vec<WindowRule>)
    ensures
        rule_views(r@) == rule_views(list@),
{
    let mut out: Vec<WindowRule> = Vec::new();
    let mut i: usize = 0;
    while i < list.len()
        invariant
            i <= list@.len(),
            rule_views(out@) == rule_views(list@).take(i as int),
        decreases list.len() - i,
    {
        let ghost before = rule_views(out@);
        out.push(list[i].clone());
        assert(rule_views(out@) =~= before.push(rule_views(list@)[i as int]));
        assert(rule_views(list@).take(i + 1) =~= rule_views(list@).take(i as int).push(
            rule_views(list@)[i as int],
        ));
        i = i + 1;
    }
    assert(rule_views(list@).take(list@.len() as int) =~= rule_views(list@));
    out
}

// --- Workspaces ---

/// A workspace as it is listed.
#[derive(Debug, PartialEq)]
pub struct WorkspaceRow {
    pub id: String,
    pub kind: WorkspaceKind,
    pub source: ConfigSource,
    pub editable: bool,
    pub definition: WorkspaceDefinition,
    pub special: Option<SpecialWorkspaceConfig>,
}

/// A listed workspace as a mathematical value.
pub struct WsRow {
    pub id: Seq<char>,
    pub kind: WorkspaceKind,
    pub source: ConfigSource,
    pub editable: bool,
    pub def: WsDef,
    pub special: Option<Overlay>,
}

pub open spec fn opt_overlay(s: Option<SpecialWorkspaceConfig>) -> Option<Overlay> {
    match s {
        Some(s) => Some(s@),
        None => None,
    }
}

impl View for WorkspaceRow {
    type V = WsRow;

    open spec fn view(&self) -> WsRow {
        WsRow {
            id: self.id@,
            kind: self.kind,
            source: self.source,
            editable: self.editable,
            def: self.definition@,
            special: opt_overlay(self.special),
        }
    }
}

pub open spec fn ws_row_views(s: Seq<WorkspaceRow>) -> Seq<WsRow> {
    Seq::new(s.len(), |i: int| s[i]@)
}

/// A kind of workspace in words.
pub open spec fn kind_shown(kind: WorkspaceKind) -> Seq<char> {
    match kind {
        WorkspaceKind::Numbered => "Numbered"@,
        WorkspaceKind::Lettered => "Lettered"@,
        WorkspaceKind::Special => "Special"@,
    }
}

/// A gap in words.
pub open spec fn gap_shown(gap: Option<i64>) -> Seq<char> {
    match gap {
        Some(g) => number_text(g as int),
        None => "default"@,
    }
}

fn show_gap(gap: Option<i64>) -> (r: String)
    ensures
        r@ == gap_shown(gap),
{
    match gap {
        Some(g) => lua_number(g),
        None => copy("default"),
    }
}

impl WsRow {
    /// The display that the workspace prefers, in words.
    pub open spec fn monitor_shown(self) -> Seq<char> {
        match self.def.prefs.monitor {
            Some(m) => "Display "@ + decimal(m.display_id as nat),
            None => "No preference"@,
        }
    }

    /// What is known of the workspace, part by part.
    pub open spec fn parts(self) -> Seq<Seq<char>> {
        let prefs = self.def.prefs;
        let gaps = if prefs.gap_inner is Some || prefs.gap_outer is Some {
            seq!["Gaps "@ + gap_shown(prefs.gap_inner) + "/"@ + gap_shown(prefs.gap_outer)]
        } else {
            seq![]
        };
        let special = match self.special {
            Some(s) => seq![
                s.position + " "@ + number_text(s.width as int) + "×"@ + number_text(
                    s.height as int,
                ),
            ],
            None => seq![],
        };
        seq!["Layout "@ + ascii_uppered(prefs.default_layout.name())] + gaps + special
    }
}

impl WorkspaceRow {
    pub fn source_label(&self) -> (r: &'static str)
        ensures
            r@ == self.source.shown(),
    {
        self.source.label()
    }

    pub fn kind_label(&self) -> (r: &'static str)
        ensures
            r@ == kind_shown(self.kind),
    {
        match self.kind {
            WorkspaceKind::Numbered => "Numbered",
            WorkspaceKind::Lettered => "Lettered",
            WorkspaceKind::Special => "Special",
        }
    }

    pub fn monitor_summary(&self) -> (r: String)
        ensures
            r@ == self@.monitor_shown(),
    {
        match &self.definition.prefs.monitor {
            Some(m) => {
                let mut out = copy("Display ");
                out.push_str(number(m.display_id as u64).as_str());
                out
            },
            None => copy("No preference"),
        }
    }

    pub fn summary(&self) -> (r: String)
        ensures
            r@ == joined(self@.parts(), " · "@),
    {
        let mut parts: Vec<String> = Vec::new();
        let mut layout = copy("Layout ");
        layout.push_str(to_ascii_uppercase(self.definition.prefs.default_layout.as_str()).as_str());
        parts.push(layout);
        let ghost first = seq![
            "Layout "@ + ascii_uppered(self@.def.prefs.default_layout.name()),
        ];
        assert(views(parts@) =~= first);
        let inner = self.definition.prefs.gap_inner;
        let outer = self.definition.prefs.gap_outer;
        if inner.is_some() || outer.is_some() {
            let mut gaps = copy("Gaps ");
            gaps.push_str(show_gap(inner).as_str());
            gaps.push_str("/");
            gaps.push_str(show_gap(outer).as_str());
            parts.push(gaps);
        }
        let ghost gaps = if inner is Some || outer is Some {
            seq!["Gaps "@ + gap_shown(inner) + "/"@ + gap_shown(outer)]
        } else {
            seq![]
        };
        assert(views(parts@) =~= first + gaps);
        if let Some(s) = &self.special {
            let mut text = copy(s.position.as_str());
            text.push_str(" ");
            text.push_str(lua_number(s.width).as_str());
            text.push_str("×");
            text.push_str(lua_number(s.height).as_str());
            parts.push(text);
        }
        assert(views(parts@) =~= self@.parts());
        join(&parts, " · ")
    }
}

} // verus!
