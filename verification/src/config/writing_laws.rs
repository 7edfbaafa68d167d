//! Laws of the written configuration: what it holds, word by word.
use vstd::prelude::*;
use crate::config::document::{Managed, MANAGED_BEGIN, MANAGED_END};
use crate::config::keybinds::{quoted, spec_parts};
use crate::config::numbers::{number_text, whole_text};
use crate::config::order::{def_after, overlay_after, DefOrder};
use crate::config::rules::{labelled, Rule, RuleMatchMode};
use crate::config::settings::Setup;
use crate::config::writing::{
    bind_lines, bind_section, concatenated, def_lines, flag_literal, floating_line, geometry_line,
    id_literal, modifier_name, overlay_lines, overlay_section, pattern_line, rule_section,
    rule_texts, section, set_line, workspace_line, workspace_section,
};
use crate::seqs::{lemma_sorted_keeps, sorted};
use crate::text::{decimal, joined, parsed_number, trimmed};
use crate::wm::input::{CONTROL_BIT, OPTION_BIT};
use crate::wm::workspace::{WsDef, WsId};

verus! {

/// Whether a text stands somewhere in another.
pub open spec fn stands_in(s: Seq<char>, part: Seq<char>) -> bool {
    exists|at: int|
        0 <= at <= s.len() - part.len() && #[trigger] s.subrange(at, at + part.len()) == part
}

proof fn lemma_part(before: Seq<char>, part: Seq<char>, after: Seq<char>)
    ensures
        stands_in(before + part + after, part),
        stands_in(before + part, part),
{
    let n = before.len() as int;
    assert((before + part + after).subrange(n, n + part.len()) =~= part);
    assert((before + part).subrange(n, n + part.len()) =~= part);
}

/// What stands in a text still does once more is written, as does what was written.
proof fn lemma_more(s: Seq<char>, more: Seq<char>)
    ensures
        forall|part: Seq<char>| stands_in(s, part) ==> #[trigger] stands_in(s + more, part),
        stands_in(s + more, more),
{
    assert forall|part: Seq<char>| stands_in(s, part) implies #[trigger] stands_in(
        s + more,
        part,
    ) by {
        let at = choose|at: int|
            0 <= at <= s.len() - part.len() && #[trigger] s.subrange(at, at + part.len()) == part;
        assert((s + more).subrange(at, at + part.len()) =~= part);
    }
    lemma_part(s, more, seq![]);
}

proof fn lemma_part_of_part(s: Seq<char>, part: Seq<char>, inner: Seq<char>)
    requires
        stands_in(s, part),
        stands_in(part, inner),
    ensures
        stands_in(s, inner),
{
    let a = choose|at: int|
        0 <= at <= s.len() - part.len() && #[trigger] s.subrange(at, at + part.len()) == part;
    let b = choose|at: int|
        0 <= at <= part.len() - inner.len() && #[trigger] part.subrange(at, at + inner.len())
            == inner;
    assert(s.subrange(a + b, a + b + inner.len()) =~= inner) by {
        assert forall|k: int| 0 <= k < inner.len() implies s[a + b + k] == inner[k] by {
            assert(inner[k] == part.subrange(b, b + inner.len())[k]);
            assert(part[b + k] == s.subrange(a, a + part.len())[b + k]);
        }
    }
}

proof fn lemma_joined(parts: Seq<Seq<char>>, sep: Seq<char>, k: int)
    requires
        0 <= k < parts.len(),
    ensures
        stands_in(joined(parts, sep), parts[k]),
    decreases parts.len(),
{
    if parts.len() == 1 {
        lemma_part(seq![], parts[0], seq![]);
        assert(seq![] + parts[0] =~= parts[0]);
    } else {
        let before = joined(parts.drop_last(), sep);
        lemma_more(before, sep);
        lemma_more(before + sep, parts.last());
        if k < parts.len() - 1 {
            lemma_joined(parts.drop_last(), sep, k);
            assert(parts.drop_last()[k] == parts[k]);
        }
    }
}

// --- Settings ---

/// Every setting is written on a line with its own key and its own value.
pub proof fn law_settings_are_written(setup: Setup)
    ensures
        ({
            let text = setup.lines();
            let line = |key: Seq<char>, value: Seq<char>|
                "gar.set(\""@ + key + "\", "@ + value + ")\n"@;
            let flag = |on: bool|
                if on {
                    "true"@
                } else {
                    "false"@
                };
            &&& stands_in(
                text,
                line(
                    "mod_key"@,
                    quoted(
                        if setup.mod_key.bits == OPTION_BIT {
                            "option"@
                        } else if setup.mod_key.bits == CONTROL_BIT {
                            "control"@
                        } else {
                            "command"@
                        },
                    ),
                ),
            )
            &&& stands_in(text, line("gap_inner"@, number_text(setup.gap_inner as int)))
            &&& stands_in(text, line("gap_outer"@, number_text(setup.gap_outer as int)))
            &&& stands_in(text, line("bar_height"@, number_text(setup.bar_height as int)))
            &&& stands_in(text, line("border_width"@, number_text(setup.border_width as int)))
            &&& stands_in(text, line("border_radius"@, number_text(setup.border_radius as int)))
            &&& stands_in(text, line("focus_follows_mouse"@, flag(setup.focus_follows_mouse)))
            &&& stands_in(text, line("mouse_follows_focus"@, flag(setup.mouse_follows_focus)))
            &&& stands_in(text, line("terminal"@, quoted(setup.terminal_command)))
            &&& stands_in(text, line("border_color_focused"@, quoted(setup.border_color_focused)))
            &&& stands_in(
                text,
                line("border_color_unfocused"@, quoted(setup.border_color_unfocused)),
            )
        }),
{
    let line = |key: Seq<char>, value: Seq<char>| "gar.set(\""@ + key + "\", "@ + value + ")\n"@;
    let flag = |on: bool|
        if on {
            "true"@
        } else {
            "false"@
        };
    let main = set_line(
        "mod_key"@,
        quoted(modifier_name(setup.mod_key)),
    );
    let s0 = "-- General\n"@ + main;
    lemma_more("-- General\n"@, main);
    let l1 = line("gap_inner"@, number_text(setup.gap_inner as int));
    let s1 = s0 + l1;
    lemma_more(s0, l1);
    let l2 = line("gap_outer"@, number_text(setup.gap_outer as int));
    let s2 = s1 + l2;
    lemma_more(s1, l2);
    let l3 = line("focus_follows_mouse"@, flag(setup.focus_follows_mouse));
    let s3 = s2 + l3;
    lemma_more(s2, l3);
    let l4 = line("mouse_follows_focus"@, flag(setup.mouse_follows_focus));
    let s4 = s3 + l4;
    lemma_more(s3, l4);
    let l5 = line("terminal"@, quoted(setup.terminal_command));
    let s5 = s4 + l5;
    lemma_more(s4, l5);
    let l6 = line("bar_height"@, number_text(setup.bar_height as int));
    let s6 = s5 + l6;
    lemma_more(s5, l6);
    let l7 = line("border_width"@, number_text(setup.border_width as int));
    let s7 = s6 + l7;
    lemma_more(s6, l7);
    let l8 = line("border_color_focused"@, quoted(setup.border_color_focused));
    let s8 = s7 + l8;
    lemma_more(s7, l8);
    let l9 = line("border_color_unfocused"@, quoted(setup.border_color_unfocused));
    let s9 = s8 + l9;
    lemma_more(s8, l9);
    let l10 = line("border_radius"@, number_text(setup.border_radius as int));
    let s10 = s9 + l10;
    lemma_more(s9, l10);
    lemma_more(s10, "\n"@);
    assert(setup.lines() == s10 + "\n"@);
}

// --- Rules ---

/// A rule is written with its name, whether it is enabled, a line for each pattern with its value
/// and mode, and a line for each action.
pub proof fn law_rule_is_written(rule: Rule, index: nat)
    ensures
        ({
            let text = rule.lines(index);
            let flag = |on: bool|
                if on {
                    "true"@
                } else {
                    "false"@
                };
            let mode = |m: RuleMatchMode|
                match m {
                    RuleMatchMode::Contains => "contains"@,
                    RuleMatchMode::Exact => "exact"@,
                    RuleMatchMode::Regex => "regex"@,
                };
            let pattern = |key: Seq<char>, value: Seq<char>, m: RuleMatchMode|
                "        "@ + key + " = { value = "@ + quoted(value) + ", mode = "@ + quoted(
                    mode(m),
                ) + " },\n"@;
            &&& stands_in(text, ",\n    enabled = "@ + flag(rule.enabled))
            &&& (rule.id is Some && trimmed(rule.id->0).len() > 0) ==> stands_in(
                text,
                "gar.rule({\n    id = "@ + quoted(rule.id->0),
            )
            &&& (rule.name is Some && trimmed(rule.name->0).len() > 0) ==> stands_in(
                text,
                ",\n    name = "@ + quoted(rule.name->0),
            )
            &&& (rule.name is None || trimmed(rule.name->0).len() == 0) ==> stands_in(
                text,
                ",\n    name = "@ + quoted("Rule "@ + decimal(index + 1)),
            )
            &&& (rule.app_name matches Some(p) ==> stands_in(
                text,
                pattern("app_name"@, p.value, p.mode),
            ))
            &&& (rule.app_bundle matches Some(p) ==> stands_in(
                text,
                pattern("app_bundle"@, p.value, p.mode),
            ))
            &&& (rule.title matches Some(p) ==> stands_in(
                text,
                pattern("title"@, p.value, p.mode),
            ))
            &&& (rule.floating matches Some(f) ==> stands_in(
                text,
                "        floating = "@ + flag(f) + ",\n"@,
            ))
            &&& (rule.workspace matches Some(w) ==> stands_in(
                text,
                "        workspace = "@ + (if parsed_number(w, 255) is Some {
                    decimal(parsed_number(w, 255)->0)
                } else {
                    quoted(w)
                }) + ",\n"@,
            ))
            &&& (rule.geometry matches Some((x, y, width, height)) ==> stands_in(
                text,
                "        geometry = { x = "@ + number_text(x as int) + ", y = "@ + number_text(
                    y as int,
                ) + ", width = "@ + number_text(width as int) + ", height = "@ + number_text(
                    height as int,
                ) + " },\n"@,
            ))
        }),
{
    let id = quoted(rule.effective_id(index));
    let name = quoted(rule.effective_name(index));
    let enabled = flag_literal(rule.enabled);
    let s1 = "gar.rule({\n    id = "@ + id;
    lemma_part(seq![], s1, seq![]);
    assert(seq![] + s1 =~= s1);
    let s2 = s1 + ",\n    name = "@;
    lemma_more(s1, ",\n    name = "@);
    let s3 = s2 + name;
    lemma_more(s2, name);
    lemma_part(s1, ",\n    name = "@ + name, seq![]);
    assert(s1 + (",\n    name = "@ + name) =~= s3);
    let s4 = s3 + ",\n    enabled = "@;
    lemma_more(s3, ",\n    enabled = "@);
    let s5 = s4 + enabled;
    lemma_more(s4, enabled);
    lemma_part(s3, ",\n    enabled = "@ + enabled, seq![]);
    assert(s3 + (",\n    enabled = "@ + enabled) =~= s5);
    let s6 = s5 + ",\n    match = {\n"@;
    lemma_more(s5, ",\n    match = {\n"@);
    let p1 = pattern_line("app_name"@, rule.app_name);
    let s7 = s6 + p1;
    lemma_more(s6, p1);
    let p2 = pattern_line("app_bundle"@, rule.app_bundle);
    let s8 = s7 + p2;
    lemma_more(s7, p2);
    let p3 = pattern_line("title"@, rule.title);
    let s9 = s8 + p3;
    lemma_more(s8, p3);
    let s10 = s9 + "    },\n    actions = {\n"@;
    lemma_more(s9, "    },\n    actions = {\n"@);
    let f = floating_line(rule.floating);
    let s11 = s10 + f;
    lemma_more(s10, f);
    let w = workspace_line(rule.workspace);
    let s12 = s11 + w;
    lemma_more(s11, w);
    let g = geometry_line(rule.geometry);
    let s13 = s12 + g;
    lemma_more(s12, g);
    lemma_more(s13, "    },\n})\n"@);
    assert(rule.lines(index) == s13 + "    },\n})\n"@);
}

/// What a rule asks of windows names each of its patterns, and is a star where it has none.
pub proof fn law_conditions_are_named(rule: Rule)
    ensures
        ({
            let text = rule.condition_text();
            &&& (rule.app_name matches Some(p) ==> stands_in(text, "app_name="@ + p.display()))
            &&& (rule.app_bundle matches Some(p) ==> stands_in(text, "app_bundle="@ + p.display()))
            &&& (rule.title matches Some(p) ==> stands_in(text, "title="@ + p.display()))
            &&& rule.app_name is None && rule.app_bundle is None && rule.title is None ==> text
                == "*"@
        }),
{
    let a = labelled("app_name="@, rule.app_name);
    let b = labelled("app_bundle="@, rule.app_bundle);
    let c = labelled("title="@, rule.title);
    let parts = a + b + c;
    assert forall|k: int| 0 <= k < parts.len() implies stands_in(
        rule.condition_text(),
        #[trigger] parts[k],
    ) by {
        lemma_joined(parts, ", "@, k);
    }
    if a.len() > 0 {
        assert(parts[0] == a[0]);
    }
    if b.len() > 0 {
        assert(parts[a.len() as int] == b[0]);
    }
    if c.len() > 0 {
        assert(parts[(a.len() + b.len()) as int] == c[0]);
    }
}

/// What a rule does names that windows float, where they go and the rectangle they get; it is
/// nothing where the rule has no action.
pub proof fn law_effects_are_named(rule: Rule)
    ensures
        ({
            let text = rule.effect_text();
            &&& rule.floating == Some(true) ==> stands_in(text, "floating=true"@)
            &&& (rule.workspace matches Some(w) ==> stands_in(text, "workspace="@ + w))
            &&& (rule.geometry matches Some((x, y, width, height)) ==> stands_in(
                text,
                "geometry="@ + whole_text(x as int) + ","@ + whole_text(y as int) + ","@
                    + whole_text(width as int) + ","@ + whole_text(height as int),
            ))
            &&& rule.floating != Some(true) && rule.workspace is None && rule.geometry is None
                ==> text == "none"@
        }),
{
    let a = if rule.floating == Some(true) {
        seq!["floating=true"@]
    } else {
        seq![]
    };
    let b: Seq<Seq<char>> = match rule.workspace {
        Some(w) => seq!["workspace="@ + w],
        None => seq![],
    };
    let c: Seq<Seq<char>> = match rule.geometry {
        Some((x, y, width, height)) => seq![
            "geometry="@ + whole_text(x as int) + ","@ + whole_text(y as int) + ","@ + whole_text(
                width as int,
            ) + ","@ + whole_text(height as int),
        ],
        None => seq![],
    };
    let parts = a + b + c;
    assert forall|k: int| 0 <= k < parts.len() implies stands_in(
        rule.effect_text(),
        #[trigger] parts[k],
    ) by {
        lemma_joined(parts, ", "@, k);
    }
    if a.len() > 0 {
        assert(parts[0] == a[0]);
    }
    if b.len() > 0 {
        assert(parts[a.len() as int] == b[0]);
    }
    if c.len() > 0 {
        assert(parts[(a.len() + b.len()) as int] == c[0]);
    }
}

// --- Workspaces ---

/// A workspace is defined under its number, its letter or the name of its kind and its own, with the
/// display and the gaps that it prefers, if any.
pub proof fn law_workspace_is_written(def: WsDef)
    ensures
        ({
            let text = def.line();
            let id = match def.id {
                WsId::Numbered(n) => decimal(n as nat),
                WsId::Lettered(c) => quoted(seq![c]),
                WsId::Special(name) => quoted("special:"@ + name),
            };
            let start = "gar.workspace("@ + id + ", { "@;
            &&& text.take(start.len() as int) == start
            &&& (def.prefs.monitor matches Some(m) ==> stands_in(
                text,
                "monitor = "@ + decimal(m.display_id as nat),
            ))
            &&& (def.prefs.gap_inner matches Some(v) ==> stands_in(
                text,
                "gap_inner"@ + " = "@ + number_text(v as int),
            ))
            &&& (def.prefs.gap_outer matches Some(v) ==> stands_in(
                text,
                "gap_outer"@ + " = "@ + number_text(v as int),
            ))
        }),
{
    let id = id_literal(def.id);
    let start = "gar.workspace("@ + id + ", { "@;
    let fields = def.fields();
    let list = joined(fields, ", "@);
    let text = def.line();
    assert(text == start + list + " })\n"@);
    assert(text.take(start.len() as int) =~= start);
    lemma_part(start, list, " })\n"@);
    assert forall|k: int| 0 <= k < fields.len() implies stands_in(text, #[trigger] fields[k]) by {
        lemma_joined(fields, ", "@, k);
        lemma_part_of_part(text, list, fields[k]);
    }
    let monitor: Seq<Seq<char>> = match def.prefs.monitor {
        Some(m) => seq!["monitor = "@ + decimal(m.display_id as nat)],
        None => seq![],
    };
    if def.prefs.monitor is Some {
        assert(fields[1] == monitor[0]);
    }
    if def.prefs.gap_inner is Some {
        assert(fields[1 + monitor.len() as int] == "gap_inner"@ + " = "@ + number_text(
            def.prefs.gap_inner->0 as int,
        ));
    }
    if def.prefs.gap_outer is Some {
        assert(fields.last() == "gap_outer"@ + " = "@ + number_text(
            def.prefs.gap_outer->0 as int,
        ));
    }
}

// --- The whole ---

proof fn lemma_concatenated(lines: Seq<Seq<char>>, k: int)
    requires
        0 <= k < lines.len(),
    ensures
        stands_in(concatenated(lines), lines[k]),
    decreases lines.len(),
{
    let before = concatenated(lines.drop_last());
    lemma_more(before, lines.last());
    if k < lines.len() - 1 {
        lemma_concatenated(lines.drop_last(), k);
        assert(lines.drop_last()[k] == lines[k]);
    }
}

proof fn lemma_section(heading: Seq<char>, lines: Seq<Seq<char>>, k: int)
    requires
        0 <= k < lines.len(),
    ensures
        stands_in(section(heading, lines), lines[k]),
{
    lemma_concatenated(lines, k);
    lemma_part(heading, concatenated(lines), "\n"@);
    lemma_part_of_part(section(heading, lines), concatenated(lines), lines[k]);
}

proof fn lemma_sorted_has<T>(s: Seq<T>, gt: spec_fn(T, T) -> bool, k: int)
    requires
        0 <= k < s.len(),
    ensures
        sorted(s, gt).contains(s[k]),
{
    broadcast use vstd::seq_lib::group_to_multiset_ensures;

    lemma_sorted_keeps(s, gt);
    assert(s.contains(s[k]));
    assert(s.to_multiset().count(s[k]) > 0);
}

/// The managed part holds the settings, and a text of its own for every workspace, overlay, binding
/// and rule.
pub proof fn law_managed_part_holds_all(managed: Managed, k: int)
    ensures
        ({
            let text = managed.text();
            &&& stands_in(text, managed.setup.lines())
            &&& 0 <= k < managed.defs.len() ==> stands_in(text, managed.defs[k].line())
            &&& 0 <= k < managed.overlays.len() ==> ({
                let o = managed.overlays[k];
                stands_in(
                    text,
                    "gar.special_workspace("@ + quoted(o.name) + ", { position = "@ + quoted(
                        o.position,
                    ) + ", width = "@ + number_text(o.width as int) + ", height = "@ + number_text(
                        o.height as int,
                    ) + " })\n"@,
                )
            })
            &&& 0 <= k < managed.binds.len() ==> ({
                let b = managed.binds[k];
                stands_in(
                    text,
                    "gar.bind("@ + quoted(
                        joined(spec_parts(b.modifiers, b.key, managed.setup.mod_key), "+"@),
                    ) + ", "@ + quoted(b.action.text()) + ")\n"@,
                )
            })
            &&& 0 <= k < managed.rules.len() ==> stands_in(
                text,
                managed.rules[k].lines(k as nat),
            )
        }),
{
    let setup = managed.setup.lines();
    let defs = workspace_section(managed.defs);
    let overlays = overlay_section(managed.overlays);
    let binds = bind_section(managed.binds, managed.setup.mod_key);
    let rules = rule_section(managed.rules);
    let s0 = MANAGED_BEGIN@
        + "\n-- This block is managed by the tarmac Settings window.\n\n"@;
    let s1 = s0 + setup;
    lemma_more(s0, setup);
    let s2 = s1 + defs;
    lemma_more(s1, defs);
    let s3 = s2 + overlays;
    lemma_more(s2, overlays);
    let s4 = s3 + binds;
    lemma_more(s3, binds);
    let s5 = s4 + rules;
    lemma_more(s4, rules);
    let s6 = s5 + MANAGED_END@;
    lemma_more(s5, MANAGED_END@);
    lemma_more(s6, "\n"@);
    let text = managed.text();
    assert(text == s6 + "\n"@);
    if 0 <= k < managed.defs.len() {
        let list = sorted(managed.defs, def_after(DefOrder::Name));
        lemma_sorted_has(managed.defs, def_after(DefOrder::Name), k);
        let i = choose|i: int| 0 <= i < list.len() && list[i] == managed.defs[k];
        lemma_section("-- Workspaces\n"@, def_lines(list), i);
        lemma_part_of_part(text, defs, managed.defs[k].line());
    }
    if 0 <= k < managed.overlays.len() {
        let list = sorted(managed.overlays, overlay_after());
        lemma_sorted_has(managed.overlays, overlay_after(), k);
        let i = choose|i: int| 0 <= i < list.len() && list[i] == managed.overlays[k];
        lemma_section("-- Special Workspaces\n"@, overlay_lines(list), i);
        lemma_part_of_part(text, overlays, managed.overlays[k].line());
    }
    if 0 <= k < managed.binds.len() {
        let lines = bind_lines(managed.binds, managed.setup.mod_key);
        lemma_section("-- Keybindings\n"@, lines, k);
        lemma_part_of_part(text, binds, lines[k]);
    }
    if 0 <= k < managed.rules.len() {
        lemma_section("-- Rules\n"@, rule_texts(managed.rules), k);
        lemma_part_of_part(text, rules, managed.rules[k].lines(k as nat));
    }
}

} // verus!
