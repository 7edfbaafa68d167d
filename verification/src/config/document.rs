//! The configuration file: a part that the settings window writes, and the
//! user's own script around it.
use vstd::prelude::*;
use crate::config::keybinds::{bind_views, copy_binds, default_binds, default_keybinds, LuaKeybind};
use crate::config::lua::{LuaConfig, Script};
use crate::config::order::{def_after, def_views, overlay_after, DefOrder};
use crate::config::rows::{
    bind_row_views, bind_rows, build_keybind_rows, build_outer_keybind_rows, build_rule_rows,
    copy_rules, has_signature, last_for, law_managed_binding_wins, layered, lemma_last_for,
    outer_bind_rows, outer_rules, resolve_keybind_rows, rows_from, rule_entries, rule_list,
    signature, BindRow, ConfigSource, KeybindRow, RuleRow,
};
use crate::config::rules::{Rule, WindowRule};
use crate::config::settings::{Settings, Setup};
use crate::config::special::{overlay_views, Overlay, SpecialWorkspaceConfig};
use crate::config::writing::{
    bind_lines, bind_section, copy_defs, copy_specials, def_lines, overlay_lines, overlay_section,
    rule_section, rule_texts, section, serialize_rules, workspace_section, write_keybinds,
    write_settings, write_special_workspaces, write_workspace_defs,
};
use crate::seqs::{left_out, sorted};
use crate::text::{
    chars_of, copy, find_from, first_match, has_part, holds_at, is_first_match, lemma_first_match,
    lemma_match_within_line, string_of_range,
};
use crate::wm::input::{Bind, Key, Modifiers};
use crate::wm::state::rule_views;
use crate::wm::workspace::{WorkspaceDefinition, WsDef};

verus! {

/// The start of the managed part.
pub const MANAGED_BEGIN: &'static str = "-- BEGIN TARMAC SETTINGS";

/// The end of the managed part.
pub const MANAGED_END: &'static str = "-- END TARMAC SETTINGS";

// --- The managed part as values ---

/// What the settings window writes.
#[derive(Debug)]
pub struct ManagedConfig {
    pub settings: Settings,
    pub keybinds: Vec<LuaKeybind>,
    pub rules: Vec<WindowRule>,
    pub special_configs: Vec<SpecialWorkspaceConfig>,
    pub workspace_defs: Vec<WorkspaceDefinition>,
}

/// What the settings window writes, as a mathematical value.
#[verifier::ext_equal]
pub struct Managed {
    pub setup: Setup,
    pub binds: Seq<Bind>,
    pub rules: Seq<Rule>,
    pub overlays: Seq<Overlay>,
    pub defs: Seq<WsDef>,
}

impl View for ManagedConfig {
    type V = Managed;

    open spec fn view(&self) -> Managed {
        Managed {
            setup: self.settings@,
            binds: bind_views(self.keybinds@),
            rules: rule_views(self.rules@),
            overlays: overlay_views(self.special_configs@),
            defs: def_views(self.workspace_defs@),
        }
    }
}

impl Managed {
    /// A managed part that only holds the settings of a script.
    pub open spec fn settings_of(script: Script) -> Managed {
        Managed {
            setup: script.setup,
            binds: seq![],
            rules: seq![],
            overlays: seq![],
            defs: seq![],
        }
    }

    /// A managed part that holds all that a script asked for.
    pub open spec fn all_of(script: Script) -> Managed {
        Managed {
            setup: script.setup,
            binds: script.binds,
            rules: script.rules,
            overlays: script.overlays,
            defs: script.defs,
        }
    }
}

impl Clone for ManagedConfig {
    fn clone(&self) -> (r: Self)
        ensures
            r@ == self@,
    {
        let r = ManagedConfig {
            settings: self.settings.clone(),
            keybinds: copy_binds(&self.keybinds),
            rules: copy_rules(&self.rules),
            special_configs: copy_specials(&self.special_configs),
            workspace_defs: copy_defs(&self.workspace_defs),
        };
        assert(r@ =~= self@);
        r
    }
}

impl ManagedConfig {
    pub fn from_effective(config: &LuaConfig) -> (r: Self)
        ensures
            r@ == Managed::settings_of(config@),
    {
        let r = ManagedConfig {
            settings: config.settings.clone(),
            keybinds: Vec::new(),
            rules: Vec::new(),
            special_configs: Vec::new(),
            workspace_defs: Vec::new(),
        };
        assert(r@ =~= Managed::settings_of(config@));
        r
    }

    pub fn from_config(config: &LuaConfig) -> (r: Self)
        ensures
            r@ == Managed::all_of(config@),
    {
        let r = ManagedConfig {
            settings: config.settings.clone(),
            keybinds: copy_binds(&config.keybinds),
            rules: copy_rules(&config.rules),
            special_configs: copy_specials(&config.special_configs),
            workspace_defs: copy_defs(&config.workspace_defs),
        };
        assert(r@ =~= Managed::all_of(config@));
        r
    }
}

// --- The managed part as text ---

impl Managed {
    /// The managed part up to its last line.
    pub open spec fn body(self) -> Seq<char> {
        MANAGED_BEGIN@ + "\n-- This block is managed by the tarmac Settings window.\n\n"@
            + self.setup.lines() + workspace_section(self.defs) + overlay_section(self.overlays)
            + bind_section(self.binds, self.setup.mod_key) + rule_section(self.rules)
    }

    /// The managed part as it stands in the file.
    pub open spec fn text(self) -> Seq<char> {
        self.body() + MANAGED_END@ + "\n"@
    }
}

/// Writes the managed part.
pub fn serialize_managed(managed: &ManagedConfig) -> (r: String)
    ensures
        r@ == managed@.text(),
{
    let mut out = copy(MANAGED_BEGIN);
    out.push_str("\n-- This block is managed by the tarmac Settings window.\n\n");
    out.push_str(write_settings(&managed.settings).as_str());
    out.push_str(write_workspace_defs(&managed.workspace_defs).as_str());
    out.push_str(write_special_workspaces(&managed.special_configs).as_str());
    out.push_str(write_keybinds(&managed.keybinds, managed.settings.mod_key).as_str());
    out.push_str(serialize_rules(&managed.rules).as_str());
    out.push_str(MANAGED_END);
    out.push_str("\n");
    out
}

/// Where the line goes on that `from` stands in: past its line break.
pub open spec fn next_line(s: Seq<char>, from: int) -> int {
    match first_match(s, "\n"@, from) {
        Some(n) => n + 1,
        None => s.len() as int,
    }
}

/// A file before, in and after its managed part. The part runs from the first
/// start mark through the line of the first end mark after it.
pub open spec fn split_block(content: Seq<char>) -> (Seq<char>, Option<Seq<char>>, Seq<char>) {
    match first_match(content, MANAGED_BEGIN@, 0) {
        None => (content, None, seq![]),
        Some(begin) => match first_match(content, MANAGED_END@, begin) {
            None => (content, None, seq![]),
            Some(end) => {
                let after = next_line(content, end);
                (
                    content.take(begin),
                    Some(content.subrange(begin, after)),
                    content.skip(after),
                )
            },
        },
    }
}

pub fn split_managed_block(content: &str) -> (r: (String, Option<String>, String))
    ensures
        r.0@ == split_block(content@).0,
        match r.1 {
            Some(m) => split_block(content@).1 == Some(m@),
            None => split_block(content@).1 is None,
        },
        r.2@ == split_block(content@).2,
{
    let chars = chars_of(content);
    let n: usize = chars.len();
    let begin: usize = match find_from(&chars, &chars_of(MANAGED_BEGIN), 0) {
        Some(i) => {
            proof {
                lemma_first_match(content@, MANAGED_BEGIN@, 0, i as int);
            }
            i
        },
        None => {
            let empty = String::new();
            assert(empty@ =~= seq![]);
            return (copy(content), None, empty);
        },
    };
    let end: usize = match find_from(&chars, &chars_of(MANAGED_END), begin) {
        Some(i) => {
            proof {
                lemma_first_match(content@, MANAGED_END@, begin as int, i as int);
            }
            i
        },
        None => {
            let empty = String::new();
            assert(empty@ =~= seq![]);
            return (copy(content), None, empty);
        },
    };
    proof {
        reveal_strlit("\n");
    }
    let after: usize = match find_from(&chars, &chars_of("\n"), end) {
        Some(i) => {
            proof {
                lemma_first_match(content@, "\n"@, end as int, i as int);
            }
            i + 1
        },
        None => n,
    };
    let prefix = string_of_range(&chars, 0, begin);
    let managed = string_of_range(&chars, begin, after);
    let suffix = string_of_range(&chars, after, n);
    assert(prefix@ =~= content@.take(begin as int));
    assert(suffix@ =~= content@.skip(after as int));
    (prefix, Some(managed), suffix)
}

/// Splitting a file loses nothing of it.
pub proof fn law_split_loses_nothing(content: Seq<char>)
    ensures
        ({
            let (prefix, managed, suffix) = split_block(content);
            prefix + (match managed {
                Some(m) => m,
                None => seq![],
            }) + suffix == content
        }),
{
    let (prefix, managed, suffix) = split_block(content);
    match managed {
        None => {
            assert(prefix + seq![] + suffix =~= content);
        },
        Some(m) => {
            let begin = first_match(content, MANAGED_BEGIN@, 0)->0;
            assert(is_first_match(content, MANAGED_BEGIN@, 0, begin));
            let end = first_match(content, MANAGED_END@, begin)->0;
            assert(is_first_match(content, MANAGED_END@, begin, end));
            let after = next_line(content, end);
            match first_match(content, "\n"@, end) {
                Some(k) => {
                    reveal_strlit("\n");
                    assert(is_first_match(content, "\n"@, end, k));
                },
                None => {},
            }
            assert(prefix + m + suffix =~= content);
        },
    }
}

/// A text that ends its last line.
pub open spec fn line_ended(s: Seq<char>) -> Seq<char> {
    if s.len() > 0 && s.last() != '\n' {
        s.push('\n')
    } else {
        s
    }
}

/// The file with a managed part in its place.
pub open spec fn rendered(prefix: Seq<char>, managed: Managed, suffix: Seq<char>) -> Seq<char> {
    line_ended(prefix) + managed.text() + suffix
}

// --- The document ---

/// A configuration file with its managed part, and what the whole asks for.
#[derive(Debug)]
pub struct ManagedConfigDocument {
    pub prefix: String,
    pub suffix: String,
    pub managed: ManagedConfig,
    pub effective: LuaConfig,
}

/// The binding that a list has for a key combination, by its row.
pub open spec fn resolved_rows(managed: Managed, script: Script, mod_key: Modifiers) -> Seq<
    BindRow,
> {
    let usual = default_binds(script.setup.mod_key);
    layered(
        bind_rows(managed.binds, ConfigSource::Managed, mod_key),
        outer_bind_rows(script.binds, managed.binds, usual, mod_key) + bind_rows(
            usual,
            ConfigSource::Default,
            mod_key,
        ),
    )
}

/// The bindings of rows.
pub open spec fn binds_of(rows: Seq<BindRow>) -> Seq<Bind> {
    Seq::new(rows.len(), |i: int| rows[i].bind)
}

fn append_rows(rows: &mut Vec<KeybindRow>, more: &mut Vec<KeybindRow>)
    ensures
        bind_row_views(final(rows)@) == bind_row_views(old(rows)@) + bind_row_views(old(more)@),
{
    rows.append(more);
    assert(bind_row_views(rows@) =~= bind_row_views(old(rows)@) + bind_row_views(old(more)@));
}

impl ManagedConfigDocument {
    /// A file with what it asks for, and with what its managed part alone
    /// asks for, if it has one.
    pub fn load(content: &str, effective: LuaConfig, managed: &Option<LuaConfig>) -> (r: Self)
        ensures
            r.prefix@ == split_block(content@).0,
            r.suffix@ == split_block(content@).2,
            r.effective@ == effective@,
            r.managed@ == (match *managed {
                Some(config) => Managed::all_of(config@),
                None => Managed::settings_of(effective@),
            }),
    {
        let (prefix, _, suffix) = split_managed_block(content);
        let managed = match managed {
            Some(config) => ManagedConfig::from_config(config),
            None => ManagedConfig::from_effective(&effective),
        };
        ManagedConfigDocument { prefix, suffix, managed, effective }
    }

    /// Takes over what the file asks for now.
    pub fn reload_effective(&mut self, effective: LuaConfig)
        ensures
            final(self).effective@ == effective@,
            final(self).managed == old(self).managed,
            final(self).prefix == old(self).prefix,
            final(self).suffix == old(self).suffix,
    {
        self.effective = effective;
    }

    /// The file with the managed part as it is now.
    pub fn write(&self) -> (r: String)
        ensures
            r@ == rendered(self.prefix@, self.managed@, self.suffix@),
    {
        let mut out = copy(self.prefix.as_str());
        let chars = chars_of(self.prefix.as_str());
        let n: usize = chars.len();
        if n > 0 && chars[n - 1] != '\n' {
            out.push('\n');
        }
        out.push_str(serialize_managed(&self.managed).as_str());
        out.push_str(self.suffix.as_str());
        out
    }

    pub fn managed_rule_rows(&self) -> (r: Vec<RuleRow>)
        ensures
            rule_entries(r@) == rule_list(self.managed@.rules, ConfigSource::Managed),
    {
        build_rule_rows(&self.managed.rules, ConfigSource::Managed)
    }

    pub fn managed_keybind_rows(&self, mod_key: Modifiers) -> (r: Vec<KeybindRow>)
        ensures
            bind_row_views(r@) == bind_rows(self.managed@.binds, ConfigSource::Managed, mod_key),
    {
        build_keybind_rows(&self.managed.keybinds, ConfigSource::Managed, mod_key)
    }

    pub fn external_keybind_rows(&self, mod_key: Modifiers) -> (r: Vec<KeybindRow>)
        ensures
            bind_row_views(r@) == outer_bind_rows(
                self.effective@.binds,
                self.managed@.binds,
                default_binds(self.effective@.setup.mod_key),
                mod_key,
            ),
    {
        let defaults = default_keybinds(&self.effective.settings);
        build_outer_keybind_rows(
            &self.effective.keybinds,
            &self.managed.keybinds,
            &defaults,
            mod_key,
        )
    }

    pub fn keybind_rows(&self, mod_key: Modifiers) -> (r: Vec<KeybindRow>)
        ensures
            bind_row_views(r@) == bind_rows(self.managed@.binds, ConfigSource::Managed, mod_key)
                + outer_bind_rows(
                self.effective@.binds,
                self.managed@.binds,
                default_binds(self.effective@.setup.mod_key),
                mod_key,
            ),
    {
        let mut rows = self.managed_keybind_rows(mod_key);
        let mut outer = self.external_keybind_rows(mod_key);
        append_rows(&mut rows, &mut outer);
        rows
    }

    /// The bindings that hold. The defaults are always the last layer.
    pub fn resolved_keybind_rows(&self, mod_key: Modifiers) -> (r: Vec<KeybindRow>)
        ensures
            bind_row_views(r@) == resolved_rows(self.managed@, self.effective@, mod_key),
    {
        let mut outer = self.external_keybind_rows(mod_key);
        let defaults = default_keybinds(&self.effective.settings);
        let mut usual = build_keybind_rows(&defaults, ConfigSource::Default, mod_key);
        append_rows(&mut outer, &mut usual);
        resolve_keybind_rows(&self.managed_keybind_rows(mod_key), &outer)
    }

    pub fn resolved_keybinds(&self, mod_key: Modifiers) -> (r: Vec<LuaKeybind>)
        ensures
            bind_views(r@) == binds_of(resolved_rows(self.managed@, self.effective@, mod_key)),
    {
        let rows = self.resolved_keybind_rows(mod_key);
        let ghost all = binds_of(bind_row_views(rows@));
        let mut binds: Vec<LuaKeybind> = Vec::new();
        let mut i: usize = 0;
        while i < rows.len()
            invariant
                all == binds_of(bind_row_views(rows@)),
                i <= rows@.len(),
                bind_views(binds@) == all.take(i as int),
            decreases rows.len() - i,
        {
            let ghost before = bind_views(binds@);
            binds.push(rows[i].keybind.clone());
            assert(bind_views(binds@) =~= before.push(all[i as int]));
            assert(all.take(i + 1) =~= all.take(i as int).push(all[i as int]));
            i = i + 1;
        }
        assert(all.take(all.len() as int) =~= all);
        binds
    }

    pub fn external_rule_rows(&self) -> (r: Vec<RuleRow>)
        ensures
            rule_entries(r@) == rule_list(
                left_out(self.effective@.rules, self.managed@.rules),
                ConfigSource::Lua,
            ),
    {
        build_rule_rows(&outer_rules(&self.effective.rules, &self.managed.rules), ConfigSource::Lua)
    }

    pub fn rule_rows(&self) -> (r: Vec<RuleRow>)
        ensures
            rule_entries(r@) == rule_list(self.managed@.rules, ConfigSource::Managed) + rule_list(
                left_out(self.effective@.rules, self.managed@.rules),
                ConfigSource::Lua,
            ),
    {
        let mut rows = self.managed_rule_rows();
        let mut outer = self.external_rule_rows();
        let ghost a = rule_entries(rows@);
        let ghost b = rule_entries(outer@);
        rows.append(&mut outer);
        assert(rule_entries(rows@) =~= a + b);
        rows
    }
}

// --- What the document promises ---

proof fn lemma_marks_have_no_break()
    ensures
        !MANAGED_BEGIN@.contains('\n'),
        !MANAGED_END@.contains('\n'),
        MANAGED_BEGIN@.len() > 0,
        MANAGED_END@.len() > 0,
{
    reveal_strlit("-- BEGIN TARMAC SETTINGS");
    reveal_strlit("-- END TARMAC SETTINGS");
}

/// A section is empty or ends a line.
proof fn lemma_section_ends(before: Seq<char>, heading: Seq<char>, lines: Seq<Seq<char>>)
    requires
        before.len() > 0,
        before.last() == '\n',
    ensures
        (before + section(heading, lines)).len() > 0,
        (before + section(heading, lines)).last() == '\n',
{
    reveal_strlit("\n");
    if lines.len() == 0 {
        assert(before + section(heading, lines) =~= before);
    } else {
        let s = section(heading, lines);
        assert(s.last() == '\n');
        assert((before + s).last() == s.last());
    }
}

/// All but the last line of the managed part is whole lines.
proof fn lemma_body_ends(managed: Managed)
    ensures
        managed.body().len() > 0,
        managed.body().last() == '\n',
{
    reveal_strlit("\n");
    let start = MANAGED_BEGIN@ + "\n-- This block is managed by the tarmac Settings window.\n\n"@
        + managed.setup.lines();
    assert(managed.setup.lines().last() == '\n');
    assert(start.last() == '\n');
    lemma_section_ends(
        start,
        "-- Workspaces\n"@,
        def_lines(sorted(managed.defs, def_after(DefOrder::Name))),
    );
    let a = start + workspace_section(managed.defs);
    lemma_section_ends(
        a,
        "-- Special Workspaces\n"@,
        overlay_lines(sorted(managed.overlays, overlay_after())),
    );
    let b = a + overlay_section(managed.overlays);
    lemma_section_ends(
        b,
        "-- Keybindings\n"@,
        bind_lines(managed.binds, managed.setup.mod_key),
    );
    let c = b + bind_section(managed.binds, managed.setup.mod_key);
    lemma_section_ends(c, "-- Rules\n"@, rule_texts(managed.rules));
}

/// A mark is first found where it was put: nothing before it holds it, and
/// it starts a line.
proof fn lemma_mark_found(before: Seq<char>, mark: Seq<char>, after: Seq<char>, from: int)
    requires
        0 <= from <= before.len(),
        from < before.len() ==> before.last() == '\n',
        !mark.contains('\n'),
        !has_part(before.skip(from), mark),
    ensures
        first_match(before + mark + after, mark, from) == Some(before.len() as int),
{
    let s = before + mark + after;
    let at = before.len() as int;
    assert(s.subrange(at, at + mark.len()) =~= mark);
    assert forall|j: int| from <= j < at implies !#[trigger] holds_at(s, mark, j) by {
        if holds_at(s, mark, j) {
            lemma_match_within_line(s, mark, at - 1, j);
            assert(before.skip(from).subrange(j - from, j - from + mark.len()) =~= s.subrange(
                j,
                j + mark.len(),
            ));
            assert(holds_at(before.skip(from), mark, j - from));
        }
    }
    lemma_first_match(s, mark, from, at);
}

proof fn lemma_break_found(before: Seq<char>, line: Seq<char>, after: Seq<char>)
    requires
        !line.contains('\n'),
    ensures
        first_match(before + line + "\n"@ + after, "\n"@, before.len() as int) == Some(
            (before.len() + line.len()) as int,
        ),
{
    reveal_strlit("\n");
    let s = before + line + "\n"@ + after;
    let at = (before.len() + line.len()) as int;
    assert(s.subrange(at, at + 1) =~= "\n"@);
    assert forall|j: int| before.len() <= j < at implies !#[trigger] holds_at(s, "\n"@, j) by {
        if holds_at(s, "\n"@, j) {
            assert(s.subrange(j, j + 1)[0] == '\n');
            assert(s[j] == line[j - before.len()]);
        }
    }
    lemma_first_match(s, "\n"@, before.len() as int, at);
}

proof fn lemma_splits_again(front: Seq<char>, inner: Seq<char>, suffix: Seq<char>)
    requires
        front.len() > 0 ==> front.last() == '\n',
        inner.len() > 0,
        inner.last() == '\n',
        !has_part(front, MANAGED_BEGIN@),
        !has_part(MANAGED_BEGIN@ + inner, MANAGED_END@),
    ensures
        split_block(front + (MANAGED_BEGIN@ + inner + MANAGED_END@ + "\n"@) + suffix) == (
            front,
            Some(MANAGED_BEGIN@ + inner + MANAGED_END@ + "\n"@),
            suffix,
        ),
{
    let start = MANAGED_BEGIN@;
    let stop = MANAGED_END@;
    let block = start + inner + stop + "\n"@;
    let content = front + block + suffix;
    lemma_marks_have_no_break();
    reveal_strlit("\n");
    assert(front.skip(0) =~= front);
    lemma_mark_found(front, start, inner + stop + "\n"@ + suffix, 0);
    assert(front + start + (inner + stop + "\n"@ + suffix) =~= content);
    let before = front + start + inner;
    assert(before.skip(front.len() as int) =~= start + inner);
    lemma_mark_found(before, stop, "\n"@ + suffix, front.len() as int);
    assert(before + stop + ("\n"@ + suffix) =~= content);
    lemma_break_found(before, stop, suffix);
    assert(before + stop + "\n"@ + suffix =~= content);
    let after = before.len() + stop.len() + 1;
    assert(content.take(front.len() as int) =~= front);
    assert(content.subrange(front.len() as int, after as int) =~= block);
    assert(content.skip(after as int) =~= suffix);
}

/// What was written around and as the managed part is found again. The text
/// before it must not hold the start mark, nor the managed part an end mark
/// of its own.
pub proof fn law_written_file_splits_again(
    prefix: Seq<char>,
    managed: Managed,
    suffix: Seq<char>,
)
    requires
        !has_part(prefix, MANAGED_BEGIN@),
        !has_part(managed.body(), MANAGED_END@),
    ensures
        split_block(rendered(prefix, managed, suffix)) == (
            line_ended(prefix),
            Some(managed.text()),
            suffix,
        ),
        rendered(line_ended(prefix), managed, suffix) == rendered(prefix, managed, suffix),
{
    let front = line_ended(prefix);
    let start = MANAGED_BEGIN@;
    lemma_marks_have_no_break();
    lemma_body_ends(managed);
    let inner = managed.body().skip(start.len() as int);
    lemma_body_starts(managed);
    if has_part(front, start) {
        let j = choose|j: int| holds_at(front, start, j);
        lemma_match_within_line(front, start, front.len() - 1, j);
        assert(prefix.subrange(j, j + start.len()) =~= front.subrange(j, j + start.len()));
        assert(holds_at(prefix, start, j));
    }
    lemma_splits_again(front, inner, suffix);
}

proof fn lemma_body_starts(managed: Managed)
    ensures
        ({
            let inner = managed.body().skip(MANAGED_BEGIN@.len() as int);
            &&& managed.body() == MANAGED_BEGIN@ + inner
            &&& inner.len() > 0
            &&& inner.last() == '\n'
        }),
{
    let start = MANAGED_BEGIN@;
    let body = managed.body();
    let head = "\n-- This block is managed by the tarmac Settings window.\n\n"@;
    lemma_body_ends(managed);
    reveal_strlit("\n-- This block is managed by the tarmac Settings window.\n\n");
    assert(body.len() >= start.len() + head.len());
    assert(body.take(start.len() as int) =~= start);
    assert(body =~= start + body.skip(start.len() as int));
}

/// Picking a source goes part by part.
proof fn lemma_rows_from_append(a: Seq<BindRow>, b: Seq<BindRow>, source: ConfigSource)
    ensures
        rows_from(a + b, source) == rows_from(a, source) + rows_from(b, source),
    decreases b.len(),
{
    if b.len() == 0 {
        assert(a + b =~= a);
        assert(rows_from(a, source) + rows_from(b, source) =~= rows_from(a, source));
    } else {
        assert((a + b).drop_last() =~= a + b.drop_last());
        assert((a + b).last() == b.last());
        lemma_rows_from_append(a, b.drop_last(), source);
        assert(rows_from(a + b, source) =~= rows_from(a, source) + rows_from(b, source));
    }
}

proof fn lemma_rows_from_all(rows: Seq<BindRow>, source: ConfigSource)
    requires
        forall|i: int| 0 <= i < rows.len() ==> (#[trigger] rows[i]).source == source,
    ensures
        rows_from(rows, source) == rows,
    decreases rows.len(),
{
    if rows.len() > 0 {
        assert forall|i: int| 0 <= i < rows.drop_last().len() implies (
        #[trigger] rows.drop_last()[i]).source == source by {
            assert(rows.drop_last()[i] == rows[i]);
        }
        lemma_rows_from_all(rows.drop_last(), source);
        assert(rows.drop_last().push(rows.last()) =~= rows);
    } else {
        assert(rows_from(rows, source) =~= rows);
    }
}

/// Whatever is managed, a key combination that does something by default
/// does something.
pub proof fn law_defaults_never_vanish(
    managed: Managed,
    script: Script,
    mod_key: Modifiers,
    bind: Bind,
)
    requires
        default_binds(script.setup.mod_key).contains(bind),
    ensures
        has_signature(resolved_rows(managed, script, mod_key), signature(bind)),
{
    let usual = default_binds(script.setup.mod_key);
    let own = bind_rows(managed.binds, ConfigSource::Managed, mod_key);
    let rows = bind_rows(usual, ConfigSource::Default, mod_key);
    let outer = outer_bind_rows(script.binds, managed.binds, usual, mod_key);
    let sign = signature(bind);
    law_managed_binding_wins(own, outer + rows, sign);
    lemma_rows_from_append(outer, rows, ConfigSource::Default);
    lemma_rows_from_all(rows, ConfigSource::Default);
    let k = choose|k: int| 0 <= k < usual.len() && usual[k] == bind;
    assert(signature(rows[k].bind) == sign);
    let all = rows_from(outer + rows, ConfigSource::Default);
    assert(all[rows_from(outer, ConfigSource::Default).len() + k] == rows[k]);
    assert(has_signature(all, sign));
    lemma_last_for(all, sign);
    lemma_last_for(resolved_rows(managed, script, mod_key), sign);
}

/// A managed binding holds unless the managed part binds its combination
/// again later.
pub proof fn law_last_managed_binding_holds(
    managed: Managed,
    script: Script,
    mod_key: Modifiers,
    i: int,
)
    requires
        0 <= i < managed.binds.len(),
        forall|j: int|
            i < j < managed.binds.len() ==> signature(#[trigger] managed.binds[j]) != signature(
                managed.binds[i],
            ),
    ensures
        binds_of(resolved_rows(managed, script, mod_key)).contains(managed.binds[i]),
{
    let usual = default_binds(script.setup.mod_key);
    let own = bind_rows(managed.binds, ConfigSource::Managed, mod_key);
    let outer = outer_bind_rows(script.binds, managed.binds, usual, mod_key) + bind_rows(
        usual,
        ConfigSource::Default,
        mod_key,
    );
    let sign = signature(managed.binds[i]);
    let rows = resolved_rows(managed, script, mod_key);
    law_managed_binding_wins(own, outer, sign);
    lemma_last_row(own, sign, i);
    lemma_last_for(rows, sign);
    let k = choose|k: int| 0 <= k < rows.len() && rows[k] == own[i];
    assert(binds_of(rows)[k] == managed.binds[i]);
}

proof fn lemma_last_row(rows: Seq<BindRow>, sign: (Modifiers, Key), i: int)
    requires
        0 <= i < rows.len(),
        signature(rows[i].bind) == sign,
        forall|j: int| i < j < rows.len() ==> signature((#[trigger] rows[j]).bind) != sign,
    ensures
        last_for(rows, sign) == Some(rows[i]),
    decreases rows.len(),
{
    if i < rows.len() - 1 {
        let before = rows.drop_last();
        assert forall|j: int| i < j < before.len() implies signature((#[trigger] before[j]).bind)
            != sign by {
            assert(before[j] == rows[j]);
        }
        assert(rows.last() == rows[rows.len() - 1]);
        lemma_last_row(before, sign, i);
    }
}

} // verus!
