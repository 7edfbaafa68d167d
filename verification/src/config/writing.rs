//! How the managed part of a configuration is written.
use vstd::prelude::*;
use crate::config::keybinds::{
    bind_views, format_action, format_key_spec, lua_string, quoted, spec_parts, LuaKeybind,
};
use crate::config::numbers::{lua_number, number_text};
use crate::config::order::{def_after, def_views, overlay_after, sort_defs, sort_specials, DefOrder};
use crate::config::rules::{Pattern, Rule, RulePattern, WindowRule};
use crate::config::settings::{Settings, Setup};
use crate::config::special::{overlay_views, Overlay, SpecialWorkspaceConfig};
use crate::seqs::sorted;
use crate::text::{copy, decimal, join, joined, number, parse_number, parsed_number, views};
use crate::wm::input::{Bind, Modifiers, CONTROL_BIT, OPTION_BIT};
use crate::wm::state::rule_views;
use crate::wm::workspace::{WorkspaceDefinition, WorkspaceId, WsDef, WsId};

verus! {

/// A flag as a script writes it.
pub open spec fn flag_literal(b: bool) -> Seq<char> {
    if b {
        "true"@
    } else {
        "false"@
    }
}

fn flag(b: bool) -> (r: &'static str)
    ensures
        r@ == flag_literal(b),
{
    if b {
        "true"
    } else {
        "false"
    }
}

// --- Settings ---

/// The name of the main modifier.
pub open spec fn modifier_name(m: Modifiers) -> Seq<char> {
    if m.bits == OPTION_BIT {
        "option"@
    } else if m.bits == CONTROL_BIT {
        "control"@
    } else {
        "command"@
    }
}

pub fn name_of_modifier(m: Modifiers) -> (r: &'static str)
    ensures
        r@ == modifier_name(m),
{
    if m.bits == OPTION_BIT {
        "option"
    } else if m.bits == CONTROL_BIT {
        "control"
    } else {
        "command"
    }
}

/// A line that sets one setting to a literal.
pub open spec fn set_line(key: Seq<char>, literal: Seq<char>) -> Seq<char> {
    "gar.set(\""@ + key + "\", "@ + literal + ")\n"@
}

fn write_set(out: &mut String, key: &str, literal: &str)
    ensures
        final(out)@ == old(out)@ + set_line(key@, literal@),
{
    out.push_str("gar.set(\"");
    out.push_str(key);
    out.push_str("\", ");
    out.push_str(literal);
    out.push_str(")\n");
    assert(out@ =~= old(out)@ + set_line(key@, literal@));
}

impl Setup {
    /// The lines that give every setting its value.
    pub open spec fn lines(self) -> Seq<char> {
        "-- General\n"@ + set_line("mod_key"@, quoted(modifier_name(self.mod_key))) + set_line(
            "gap_inner"@,
            number_text(self.gap_inner as int),
        ) + set_line("gap_outer"@, number_text(self.gap_outer as int)) + set_line(
            "focus_follows_mouse"@,
            flag_literal(self.focus_follows_mouse),
        ) + set_line("mouse_follows_focus"@, flag_literal(self.mouse_follows_focus)) + set_line(
            "terminal"@,
            quoted(self.terminal_command),
        ) + set_line("bar_height"@, number_text(self.bar_height as int)) + set_line(
            "border_width"@,
            number_text(self.border_width as int),
        ) + set_line("border_color_focused"@, quoted(self.border_color_focused)) + set_line(
            "border_color_unfocused"@,
            quoted(self.border_color_unfocused),
        ) + set_line("border_radius"@, number_text(self.border_radius as int)) + "\n"@
    }
}

/// Writes every setting.
pub fn write_settings(settings: &Settings) -> (r: String)
    ensures
        r@ == settings@.lines(),
{
    let mut out = copy("-- General\n");
    write_set(&mut out, "mod_key", lua_string(name_of_modifier(settings.mod_key)).as_str());
    write_set(&mut out, "gap_inner", lua_number(settings.gap_inner).as_str());
    write_set(&mut out, "gap_outer", lua_number(settings.gap_outer).as_str());
    write_set(&mut out, "focus_follows_mouse", flag(settings.focus_follows_mouse));
    write_set(&mut out, "mouse_follows_focus", flag(settings.mouse_follows_focus));
    write_set(&mut out, "terminal", lua_string(settings.terminal_command.as_str()).as_str());
    write_set(&mut out, "bar_height", lua_number(settings.bar_height).as_str());
    write_set(&mut out, "border_width", lua_number(settings.border_width).as_str());
    write_set(
        &mut out,
        "border_color_focused",
        lua_string(settings.border_color_focused.as_str()).as_str(),
    );
    write_set(
        &mut out,
        "border_color_unfocused",
        lua_string(settings.border_color_unfocused.as_str()).as_str(),
    );
    write_set(&mut out, "border_radius", lua_number(settings.border_radius).as_str());
    out.push_str("\n");
    out
}

// --- Workspaces ---

/// A workspace name as a literal.
pub open spec fn id_literal(id: WsId) -> Seq<char> {
    match id {
        WsId::Numbered(n) => decimal(n as nat),
        WsId::Lettered(c) => quoted(seq![c]),
        WsId::Special(name) => quoted("special:"@ + name),
    }
}

fn write_id(id: &WorkspaceId) -> (r: String)
    ensures
        r@ == id_literal(id@),
{
    match id {
        WorkspaceId::Numbered(n) => number(*n as u64),
        WorkspaceId::Lettered(c) => {
            let mut s = String::new();
            s.push(*c);
            assert(s@ =~= seq![*c]);
            lua_string(s.as_str())
        },
        WorkspaceId::Special(name) => {
            let mut s = copy("special:");
            s.push_str(name.as_str());
            lua_string(s.as_str())
        },
    }
}

/// A field of a table, if there is a value for it.
pub open spec fn number_field(key: Seq<char>, v: Option<i64>) -> Seq<Seq<char>> {
    match v {
        Some(v) => seq![key + " = "@ + number_text(v as int)],
        None => seq![],
    }
}

fn push_number_field(parts: &mut Vec<String>, key: &str, v: Option<i64>)
    ensures
        views(final(parts)@) == views(old(parts)@) + number_field(key@, v),
{
    if let Some(v) = v {
        let mut s = copy(key);
        s.push_str(" = ");
        s.push_str(lua_number(v).as_str());
        parts.push(s);
    }
    assert(views(parts@) =~= views(old(parts)@) + number_field(key@, v));
}

impl WsDef {
    /// The fields that say what is preferred.
    pub open spec fn fields(self) -> Seq<Seq<char>> {
        let monitor = match self.prefs.monitor {
            Some(m) => seq!["monitor = "@ + decimal(m.display_id as nat)],
            None => seq![],
        };
        seq!["layout = "@ + quoted(self.prefs.default_layout.name())] + monitor + number_field(
            "gap_inner"@,
            self.prefs.gap_inner,
        ) + number_field("gap_outer"@, self.prefs.gap_outer)
    }

    /// The line that defines the workspace.
    pub open spec fn line(self) -> Seq<char> {
        "gar.workspace("@ + id_literal(self.id) + ", { "@ + joined(self.fields(), ", "@) + " })\n"@
    }
}

fn write_fields(def: &WorkspaceDefinition) -> (r: String)
    ensures
        r@ == joined(def@.fields(), ", "@),
{
    let mut parts: Vec<String> = Vec::new();
    let mut layout = copy("layout = ");
    layout.push_str(lua_string(def.prefs.default_layout.as_str()).as_str());
    parts.push(layout);
    let ghost first = seq!["layout = "@ + quoted(def@.prefs.default_layout.name())];
    assert(views(parts@) =~= first);
    let ghost monitor = match def@.prefs.monitor {
        Some(m) => seq!["monitor = "@ + decimal(m.display_id as nat)],
        None => seq![],
    };
    if let Some(m) = &def.prefs.monitor {
        let mut s = copy("monitor = ");
        s.push_str(number(m.display_id as u64).as_str());
        parts.push(s);
    }
    assert(views(parts@) =~= first + monitor);
    push_number_field(&mut parts, "gap_inner", def.prefs.gap_inner);
    push_number_field(&mut parts, "gap_outer", def.prefs.gap_outer);
    assert(views(parts@) =~= def@.fields());
    join(&parts, ", ")
}

fn write_def(def: &WorkspaceDefinition) -> (r: String)
    ensures
        r@ == def@.line(),
{
    let mut out = copy("gar.workspace(");
    out.push_str(write_id(&def.id).as_str());
    out.push_str(", { ");
    out.push_str(write_fields(def).as_str());
    out.push_str(" })\n");
    out
}

/// Lines one after the other.
pub open spec fn concatenated(lines: Seq<Seq<char>>) -> Seq<char>
    decreases lines.len(),
{
    if lines.len() == 0 {
        seq![]
    } else {
        concatenated(lines.drop_last()) + lines.last()
    }
}

/// A heading, lines and an empty line; nothing where there are no lines.
pub open spec fn section(heading: Seq<char>, lines: Seq<Seq<char>>) -> Seq<char> {
    if lines.len() == 0 {
        seq![]
    } else {
        heading + concatenated(lines) + "\n"@
    }
}

fn write_section(heading: &str, lines: &Vec<String>) -> (r: String)
    ensures
        r@ == section(heading@, views(lines@)),
{
    if lines.len() == 0 {
        let r = String::new();
        assert(r@ =~= seq![]);
        return r;
    }
    let mut out = copy(heading);
    let ghost all = views(lines@);
    let mut i: usize = 0;
    assert(heading@ + concatenated(all.take(0)) =~= heading@);
    while i < lines.len()
        invariant
            all == views(lines@),
            i <= lines@.len(),
            out@ == heading@ + concatenated(all.take(i as int)),
        decreases lines.len() - i,
    {
        proof {
            assert(all.take(i + 1).drop_last() =~= all.take(i as int));
            assert(all.take(i + 1).last() == lines@[i as int]@);
        }
        out.push_str(lines[i].as_str());
        assert(out@ =~= heading@ + concatenated(all.take(i + 1)));
        i = i + 1;
    }
    assert(all.take(all.len() as int) =~= all);
    out.push_str("\n");
    out
}

pub open spec fn def_lines(defs: Seq<WsDef>) -> Seq<Seq<char>> {
    Seq::new(defs.len(), |i: int| defs[i].line())
}

/// The lines that define workspaces, by their names.
pub open spec fn workspace_section(defs: Seq<WsDef>) -> Seq<char> {
    section("-- Workspaces\n"@, def_lines(sorted(defs, def_after(DefOrder::Name))))
}

pub fn write_workspace_defs(defs: &Vec<WorkspaceDefinition>) -> (r: String)
    ensures
        r@ == workspace_section(def_views(defs@)),
{
    let listed = sort_defs(copy_defs(defs), DefOrder::Name);
    let mut lines: Vec<String> = Vec::new();
    let mut i: usize = 0;
    while i < listed.len()
        invariant
            i <= listed@.len(),
            views(lines@) == def_lines(def_views(listed@)).take(i as int),
        decreases listed.len() - i,
    {
        let ghost before = views(lines@);
        lines.push(write_def(&listed[i]));
        assert(views(lines@) =~= before.push(def_lines(def_views(listed@))[i as int]));
        assert(def_lines(def_views(listed@)).take(i + 1) =~= def_lines(def_views(listed@)).take(i as int).push(def_lines(def_views(listed@))[i as int]));
        i = i + 1;
    }
    assert(views(lines@) =~= def_lines(def_views(listed@)));
    write_section("-- Workspaces\n", &lines)
}

/// Copies definitions.
pub fn copy_defs(defs: &Vec<WorkspaceDefinition>) -> (r: Vec<WorkspaceDefinition>)
    ensures
        def_views(r@) == def_views(defs@),
{
    let mut out: Vec<WorkspaceDefinition> = Vec::new();
    let mut i: usize = 0;
    while i < defs.len()
        invariant
            i <= defs@.len(),
            def_views(out@) == def_views(defs@).take(i as int),
        decreases defs.len() - i,
    {
        let ghost before = def_views(out@);
        out.push(defs[i].clone());
        assert(def_views(out@) =~= before.push(def_views(defs@)[i as int]));
        assert(def_views(defs@).take(i + 1) =~= def_views(defs@).take(i as int).push(def_views(defs@)[i as int]));
        i = i + 1;
    }
    assert(def_views(defs@).take(defs@.len() as int) =~= def_views(defs@));
    out
}

// --- Overlays ---

impl Overlay {
    /// The line that defines the overlay.
    pub open spec fn line(self) -> Seq<char> {
        "gar.special_workspace("@ + quoted(self.name) + ", { position = "@ + quoted(self.position)
            + ", width = "@ + number_text(self.width as int) + ", height = "@ + number_text(
            self.height as int,
        ) + " })\n"@
    }
}

fn write_special(special: &SpecialWorkspaceConfig) -> (r: String)
    ensures
        r@ == special@.line(),
{
    let mut out = copy("gar.special_workspace(");
    out.push_str(lua_string(special.name.as_str()).as_str());
    out.push_str(", { position = ");
    out.push_str(lua_string(special.position.as_str()).as_str());
    out.push_str(", width = ");
    out.push_str(lua_number(special.width).as_str());
    out.push_str(", height = ");
    out.push_str(lua_number(special.height).as_str());
    out.push_str(" })\n");
    out
}

pub open spec fn overlay_lines(overlays: Seq<Overlay>) -> Seq<Seq<char>> {
    Seq::new(overlays.len(), |i: int| overlays[i].line())
}

/// The lines that define overlays, by their names.
pub open spec fn overlay_section(overlays: Seq<Overlay>) -> Seq<char> {
    section("-- Special Workspaces\n"@, overlay_lines(sorted(overlays, overlay_after())))
}

/// Copies overlays.
pub fn copy_specials(specials: &Vec<SpecialWorkspaceConfig>) -> (r: Vec<SpecialWorkspaceConfig>)
    ensures
        overlay_views(r@) == overlay_views(specials@),
{
    let mut out: Vec<SpecialWorkspaceConfig> = Vec::new();
    let mut i: usize = 0;
    while i < specials.len()
        invariant
            i <= specials@.len(),
            overlay_views(out@) == overlay_views(specials@).take(i as int),
        decreases specials.len() - i,
    {
        let ghost before = overlay_views(out@);
        out.push(specials[i].clone());
        assert(overlay_views(out@) =~= before.push(overlay_views(specials@)[i as int]));
        assert(overlay_views(specials@).take(i + 1) =~= overlay_views(specials@).take(i as int).push(overlay_views(specials@)[i as int]));
        i = i + 1;
    }
    assert(overlay_views(specials@).take(specials@.len() as int) =~= overlay_views(specials@));
    out
}

pub fn write_special_workspaces(specials: &Vec<SpecialWorkspaceConfig>) -> (r: String)
    ensures
        r@ == overlay_section(overlay_views(specials@)),
{
    let listed = sort_specials(copy_specials(specials));
    let mut lines: Vec<String> = Vec::new();
    let mut i: usize = 0;
    while i < listed.len()
        invariant
            i <= listed@.len(),
            views(lines@) == overlay_lines(overlay_views(listed@)).take(i as int),
        decreases listed.len() - i,
    {
        let ghost before = views(lines@);
        lines.push(write_special(&listed[i]));
        assert(views(lines@) =~= before.push(overlay_lines(overlay_views(listed@))[i as int]));
        assert(overlay_lines(overlay_views(listed@)).take(i + 1) =~= overlay_lines(overlay_views(listed@)).take(i as int).push(overlay_lines(overlay_views(listed@))[i as int]));
        i = i + 1;
    }
    assert(views(lines@) =~= overlay_lines(overlay_views(listed@)));
    write_section("-- Special Workspaces\n", &lines)
}

// --- Key bindings ---

/// The line that binds a key combination.
pub open spec fn bind_line(bind: Bind, mod_key: Modifiers) -> Seq<char> {
    "gar.bind("@ + quoted(joined(spec_parts(bind.modifiers, bind.key, mod_key), "+"@)) + ", "@
        + quoted(bind.action.text()) + ")\n"@
}

pub open spec fn bind_lines(binds: Seq<Bind>, mod_key: Modifiers) -> Seq<Seq<char>> {
    Seq::new(binds.len(), |i: int| bind_line(binds[i], mod_key))
}

/// The lines that bind key combinations.
pub open spec fn bind_section(binds: Seq<Bind>, mod_key: Modifiers) -> Seq<char> {
    section("-- Keybindings\n"@, bind_lines(binds, mod_key))
}

fn write_bind(bind: &LuaKeybind, mod_key: Modifiers) -> (r: String)
    ensures
        r@ == bind_line(bind@, mod_key),
{
    let mut out = copy("gar.bind(");
    out.push_str(
        lua_string(format_key_spec(bind.modifiers, bind.key, mod_key).as_str()).as_str(),
    );
    out.push_str(", ");
    out.push_str(lua_string(format_action(&bind.action).as_str()).as_str());
    out.push_str(")\n");
    out
}

pub fn write_keybinds(keybinds: &Vec<LuaKeybind>, mod_key: Modifiers) -> (r: String)
    ensures
        r@ == bind_section(bind_views(keybinds@), mod_key),
{
    let mut lines: Vec<String> = Vec::new();
    let mut i: usize = 0;
    while i < keybinds.len()
        invariant
            i <= keybinds@.len(),
            views(lines@) == bind_lines(bind_views(keybinds@), mod_key).take(i as int),
        decreases keybinds.len() - i,
    {
        let ghost before = views(lines@);
        lines.push(write_bind(&keybinds[i], mod_key));
        assert(views(lines@) =~= before.push(bind_lines(bind_views(keybinds@), mod_key)[i as int]));
        assert(bind_lines(bind_views(keybinds@), mod_key).take(i + 1) =~= bind_lines(bind_views(keybinds@), mod_key).take(i as int).push(bind_lines(bind_views(keybinds@), mod_key)[i as int]));
        i = i + 1;
    }
    assert(views(lines@) =~= bind_lines(bind_views(keybinds@), mod_key));
    write_section("-- Keybindings\n", &lines)
}

// --- Rules ---

/// The line of a pattern; nothing where there is no pattern.
pub open spec fn pattern_line(key: Seq<char>, pattern: Option<Pattern>) -> Seq<char> {
    match pattern {
        Some(p) => "        "@ + key + " = { value = "@ + quoted(p.value) + ", mode = "@ + quoted(
            p.mode.name(),
        ) + " },\n"@,
        None => seq![],
    }
}

pub fn write_rule_pattern(key: &str, pattern: &Option<RulePattern>) -> (r: String)
    ensures
        r@ == pattern_line(
            key@,
            match *pattern {
                Some(p) => Some(p@),
                None => None,
            },
        ),
{
    match pattern {
        Some(p) => {
            let mut out = copy("        ");
            out.push_str(key);
            out.push_str(" = { value = ");
            out.push_str(lua_string(p.value.as_str()).as_str());
            out.push_str(", mode = ");
            out.push_str(lua_string(p.mode.as_str()).as_str());
            out.push_str(" },\n");
            out
        },
        None => {
            let r = String::new();
            assert(r@ =~= seq![]);
            r
        },
    }
}

/// The line that makes windows float or not.
pub open spec fn floating_line(floating: Option<bool>) -> Seq<char> {
    match floating {
        Some(f) => "        floating = "@ + flag_literal(f) + ",\n"@,
        None => seq![],
    }
}

/// The line that sends windows to a workspace: a number where it is one.
pub open spec fn workspace_line(workspace: Option<Seq<char>>) -> Seq<char> {
    match workspace {
        Some(w) => "        workspace = "@ + (match parsed_number(w, 255) {
            Some(n) => decimal(n),
            None => quoted(w),
        }) + ",\n"@,
        None => seq![],
    }
}

/// The line that gives windows a place and a size.
pub open spec fn geometry_line(geometry: Option<(i64, i64, i64, i64)>) -> Seq<char> {
    match geometry {
        Some((x, y, width, height)) => "        geometry = { x = "@ + number_text(x as int)
            + ", y = "@ + number_text(y as int) + ", width = "@ + number_text(width as int)
            + ", height = "@ + number_text(height as int) + " },\n"@,
        None => seq![],
    }
}

impl Rule {
    /// The lines of the rule at an index.
    pub open spec fn lines(self, index: nat) -> Seq<char> {
        "gar.rule({\n    id = "@ + quoted(self.effective_id(index)) + ",\n    name = "@ + quoted(
            self.effective_name(index),
        ) + ",\n    enabled = "@ + flag_literal(self.enabled) + ",\n    match = {\n"@
            + pattern_line("app_name"@, self.app_name) + pattern_line(
            "app_bundle"@,
            self.app_bundle,
        ) + pattern_line("title"@, self.title) + "    },\n    actions = {\n"@ + floating_line(
            self.floating,
        ) + workspace_line(self.workspace) + geometry_line(self.geometry) + "    },\n})\n"@
    }
}

fn write_floating(floating: Option<bool>) -> (r: String)
    ensures
        r@ == floating_line(floating),
{
    let mut out = String::new();
    if let Some(f) = floating {
        out.push_str("        floating = ");
        out.push_str(flag(f));
        out.push_str(",\n");
    }
    assert(out@ =~= floating_line(floating));
    out
}

fn write_rule_workspace(workspace: &Option<String>) -> (r: String)
    ensures
        r@ == workspace_line(
            match *workspace {
                Some(w) => Some(w@),
                None => None,
            },
        ),
{
    match workspace {
        Some(w) => {
            let mut out = copy("        workspace = ");
            match parse_number(w.as_str(), 255) {
                Some(n) => {
                    out.push_str(number(n).as_str());
                },
                None => {
                    out.push_str(lua_string(w.as_str()).as_str());
                },
            }
            out.push_str(",\n");
            out
        },
        None => {
            let r = String::new();
            assert(r@ =~= seq![]);
            r
        },
    }
}

fn write_geometry(geometry: Option<(i64, i64, i64, i64)>) -> (r: String)
    ensures
        r@ == geometry_line(geometry),
{
    match geometry {
        Some((x, y, width, height)) => {
            let mut out = copy("        geometry = { x = ");
            out.push_str(lua_number(x).as_str());
            out.push_str(", y = ");
            out.push_str(lua_number(y).as_str());
            out.push_str(", width = ");
            out.push_str(lua_number(width).as_str());
            out.push_str(", height = ");
            out.push_str(lua_number(height).as_str());
            out.push_str(" },\n");
            out
        },
        None => {
            let r = String::new();
            assert(r@ =~= seq![]);
            r
        },
    }
}

fn write_rule(rule: &WindowRule, index: usize) -> (r: String)
    requires
        index < usize::MAX,
    ensures
        r@ == rule@.lines(index as nat),
{
    let mut out = copy("gar.rule({\n    id = ");
    out.push_str(lua_string(rule.effective_id(index).as_str()).as_str());
    out.push_str(",\n    name = ");
    out.push_str(lua_string(rule.effective_name(index).as_str()).as_str());
    out.push_str(",\n    enabled = ");
    out.push_str(flag(rule.enabled));
    out.push_str(",\n    match = {\n");
    out.push_str(write_rule_pattern("app_name", &rule.app_name).as_str());
    out.push_str(write_rule_pattern("app_bundle", &rule.app_bundle).as_str());
    out.push_str(write_rule_pattern("title", &rule.title).as_str());
    out.push_str("    },\n    actions = {\n");
    out.push_str(write_floating(rule.floating).as_str());
    out.push_str(write_rule_workspace(&rule.workspace).as_str());
    out.push_str(write_geometry(rule.geometry).as_str());
    out.push_str("    },\n})\n");
    out
}

pub open spec fn rule_texts(rules: Seq<Rule>) -> Seq<Seq<char>> {
    Seq::new(rules.len(), |i: int| rules[i].lines(i as nat))
}

/// The lines of rules.
pub open spec fn rule_section(rules: Seq<Rule>) -> Seq<char> {
    section("-- Rules\n"@, rule_texts(rules))
}

/// Writes rules.
pub fn serialize_rules(rules: &Vec<WindowRule>) -> (r: String)
    ensures
        r@ == rule_section(rule_views(rules@)),
{
    let mut lines: Vec<String> = Vec::new();
    let n: usize = rules.len();
    let mut i: usize = 0;
    while i < n
        invariant
            n == rules@.len(),
            i <= n,
            views(lines@) == rule_texts(rule_views(rules@)).take(i as int),
        decreases n - i,
    {
        let ghost before = views(lines@);
        lines.push(write_rule(&rules[i], i));
        assert(views(lines@) =~= before.push(rule_texts(rule_views(rules@))[i as int]));
        assert(rule_texts(rule_views(rules@)).take(i + 1) =~= rule_texts(rule_views(rules@)).take(i as int).push(rule_texts(rule_views(rules@))[i as int]));
        i = i + 1;
    }
    assert(views(lines@) =~= rule_texts(rule_views(rules@)));
    write_section("-- Rules\n", &lines)
}

} // verus!
