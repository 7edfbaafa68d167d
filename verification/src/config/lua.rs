//! What a configuration script can ask for.
//!
//! The script runs elsewhere. Here stands what each call of the `gar` table
//! means, on plain values.
use vstd::prelude::*;
use crate::config::keybinds::{
    all_ascii_parts, ascii_lowered_parts, bind_named, bind_views, default_binds, default_keybinds,
    key_parts, lowered_parts, parse_keybind_and_action, LuaKeybind,
};
use crate::config::order::{dedup_defs, def_views, defined_once, ordered_defs, sort_defs, DefOrder};
use crate::config::rules::{
    legacy_pattern, mode_named, Pattern, Rule, RuleGeometry, RuleMatchMode, RulePattern, WindowRule,
};
use crate::config::settings::{Settings, Setup};
use crate::config::special::{default_overlay, overlay_views, Overlay, SpecialWorkspaceConfig};
use crate::seqs::{first_where, lemma_first_where, lemma_first_where_found, lemma_first_where_none};
use crate::text::{
    char_is_space, chars_of, copy, decimal, decimal_int, integer, is_space, number, opt_view, same,
    string_of_range, trim, trim_start, trimmed,
};
use crate::wm::geometry::{fit, fit_i64};
use crate::wm::input::Bind;
use crate::wm::state::{defines, rule_views};
use crate::wm::workspace::{
    id_named, plain_def, MonitorAssignment, WorkspaceDefinition, WorkspaceId, WorkspaceLayout,
    WorkspacePrefs, WsDef, WsId,
};

verus! {

/// The workspaces 1 to 10, without preferences.
pub open spec fn default_defs() -> Seq<WsDef> {
    Seq::new(10, |i: int| plain_def(WsId::Numbered((i + 1) as u8)))
}

pub fn default_workspace_definitions() -> (r: Vec<WorkspaceDefinition>)
    ensures
        def_views(r@) == default_defs(),
{
    let mut out: Vec<WorkspaceDefinition> = Vec::new();
    let mut n: u8 = 1;
    while n <= 10
        invariant
            1 <= n <= 11,
            def_views(out@) == default_defs().take(n - 1),
        decreases 11 - n,
    {
        let ghost before = def_views(out@);
        out.push(WorkspaceDefinition::new(WorkspaceId::Numbered(n)));
        assert(def_views(out@) =~= before.push(default_defs()[n - 1]));
        assert(default_defs().take(n as int) =~= default_defs().take(n - 1).push(
            default_defs()[n - 1],
        ));
        n = n + 1;
    }
    assert(default_defs().take(10) =~= default_defs());
    out
}

// --- Values of a script ---

/// A number of a script that is not an integer.
#[derive(Debug)]
pub struct LuaNumber {
    /// How the number is written.
    pub text: String,
    pub thousandths: i64,
    pub is_positive: bool,
    /// The whole part, brought into the range of a byte.
    pub byte: u8,
}

/// A text of a script.
#[derive(Debug)]
pub struct LuaText {
    pub text: String,
    /// The number that a script takes the text for.
    pub thousandths: Option<i64>,
}

/// A value of a script.
#[derive(Debug)]
pub enum LuaValue {
    Nil,
    Boolean(bool),
    Integer(i64),
    Number(LuaNumber),
    Text(LuaText),
    Table(Vec<(String, LuaValue)>),
    /// A function or another value of no use here.
    Other,
}

/// Tells the entry of a name.
pub open spec fn is_entry(key: Seq<char>) -> spec_fn((String, LuaValue)) -> bool {
    |e: (String, LuaValue)| e.0@ == key
}

/// The value under a name in a table.
pub open spec fn field(table: Seq<(String, LuaValue)>, key: Seq<char>) -> LuaValue {
    match first_where(table, is_entry(key)) {
        Some(i) => table[i].1,
        None => LuaValue::Nil,
    }
}

fn get<'a>(table: &'a Vec<(String, LuaValue)>, key: &str) -> (r: Option<&'a LuaValue>)
    ensures
        match r {
            Some(v) => *v == field(table@, key@),
            None => field(table@, key@) == LuaValue::Nil,
        },
{
    let ghost p = is_entry(key@);
    let mut i: usize = 0;
    while i < table.len()
        invariant
            p == is_entry(key@),
            i <= table@.len(),
            forall|j: int| 0 <= j < i ==> !p(#[trigger] table@[j]),
        decreases table.len() - i,
    {
        if same(table[i].0.as_str(), key) {
            proof {
                lemma_first_where(table@, p, i as int);
            }
            return Some(&table[i].1);
        }
        i = i + 1;
    }
    proof {
        lemma_first_where_none(table@, p);
    }
    None
}

/// A value as a flag.
pub open spec fn flag_of(v: LuaValue) -> Option<bool> {
    match v {
        LuaValue::Boolean(b) => Some(b),
        _ => None,
    }
}

pub fn parse_optional_bool(value: Option<&LuaValue>) -> (r: Option<bool>)
    ensures
        r == (match value {
            Some(v) => flag_of(*v),
            None => None,
        }),
{
    match value {
        Some(LuaValue::Boolean(b)) => Some(*b),
        _ => None,
    }
}

/// A value as a number, if it is one.
pub open spec fn number_of(v: LuaValue) -> Option<i64> {
    match v {
        LuaValue::Integer(i) => Some(fit(i * 1000)),
        LuaValue::Number(n) => Some(n.thousandths),
        _ => None,
    }
}

pub fn parse_optional_number(value: Option<&LuaValue>) -> (r: Option<i64>)
    ensures
        r == (match value {
            Some(v) => number_of(*v),
            None => None,
        }),
{
    match value {
        Some(LuaValue::Integer(i)) => Some(fit_i64(*i as i128 * 1000)),
        Some(LuaValue::Number(n)) => Some(n.thousandths),
        _ => None,
    }
}

/// A value as a number, also if it is a text that stands for one.
pub open spec fn loose_number_of(v: LuaValue) -> Option<i64> {
    match v {
        LuaValue::Text(t) => t.thousandths,
        _ => number_of(v),
    }
}

fn read_loose_number(value: Option<&LuaValue>) -> (r: Option<i64>)
    ensures
        r == (match value {
            Some(v) => loose_number_of(*v),
            None => None,
        }),
{
    match value {
        Some(LuaValue::Text(t)) => t.thousandths,
        _ => parse_optional_number(value),
    }
}

/// A flag in words.
pub open spec fn flag_text(b: bool) -> Seq<char> {
    if b {
        "true"@
    } else {
        "false"@
    }
}

fn flag_string(b: bool) -> (r: String)
    ensures
        r@ == flag_text(b),
{
    if b {
        copy("true")
    } else {
        copy("false")
    }
}

/// A value as a text; a blank text counts as none.
pub open spec fn text_of(v: LuaValue) -> Option<Seq<char>> {
    match v {
        LuaValue::Text(t) => if trimmed(t.text@).len() == 0 {
            None
        } else {
            Some(t.text@)
        },
        LuaValue::Integer(i) => Some(decimal_int(i as int)),
        LuaValue::Number(n) => Some(n.text@),
        LuaValue::Boolean(b) => Some(flag_text(b)),
        _ => None,
    }
}

pub fn parse_optional_string_value(value: Option<&LuaValue>) -> (r: Option<String>)
    ensures
        opt_view(r) == (match value {
            Some(v) => text_of(*v),
            None => None,
        }),
{
    match value {
        Some(LuaValue::Text(t)) => {
            if trim(t.text.as_str()).as_str().is_empty() {
                None
            } else {
                Some(copy(t.text.as_str()))
            }
        },
        Some(LuaValue::Integer(i)) => Some(integer(*i as i128)),
        Some(LuaValue::Number(n)) => Some(copy(n.text.as_str())),
        Some(LuaValue::Boolean(b)) => Some(flag_string(*b)),
        _ => None,
    }
}

// --- gar.set ---

/// The text that a setting gets; what is no text, number or flag gets the
/// description that it came with.
pub open spec fn setting_text(v: LuaValue, description: Seq<char>) -> Seq<char> {
    match v {
        LuaValue::Text(t) => t.text@,
        LuaValue::Number(n) => n.text@,
        LuaValue::Integer(i) => decimal_int(i as int),
        LuaValue::Boolean(b) => flag_text(b),
        _ => description,
    }
}

fn setting_string(v: &LuaValue, description: &str) -> (r: String)
    ensures
        r@ == setting_text(*v, description@),
{
    match v {
        LuaValue::Text(t) => copy(t.text.as_str()),
        LuaValue::Number(n) => copy(n.text.as_str()),
        LuaValue::Integer(i) => integer(*i as i128),
        LuaValue::Boolean(b) => flag_string(*b),
        _ => copy(description),
    }
}

// --- gar.rule ---

/// The pattern of a value: a text, which may be a regular expression between
/// slashes, a number, or a table with a value and a mode.
pub open spec fn pattern_of(v: LuaValue, mode: RuleMatchMode) -> Result<
    Option<Pattern>,
    Seq<char>,
> {
    match v {
        LuaValue::Nil => Ok(None),
        LuaValue::Text(t) => Ok(Some(legacy_pattern(t.text@, mode))),
        LuaValue::Integer(i) => Ok(Some(Pattern { value: decimal_int(i as int), mode })),
        LuaValue::Number(n) => Ok(Some(Pattern { value: n.text@, mode })),
        LuaValue::Table(t) => match text_of(field(t@, "value"@)) {
            None => Err("rule match table requires value"@),
            Some(value) => Ok(
                Some(
                    Pattern {
                        value,
                        mode: match text_of(field(t@, "mode"@)) {
                            Some(name) => match mode_named(name) {
                                Some(m) => m,
                                None => mode,
                            },
                            None => mode,
                        },
                    },
                ),
            ),
        },
        _ => Err("invalid rule match value"@),
    }
}

pub open spec fn opt_pattern_view(p: Option<RulePattern>) -> Option<Pattern> {
    match p {
        Some(x) => Some(x@),
        None => None,
    }
}

pub fn parse_match_pattern(value: Option<&LuaValue>, default_mode: RuleMatchMode) -> (r: Result<
    Option<RulePattern>,
    &'static str,
>)
    ensures
        match r {
            Ok(p) => pattern_of(
                match value {
                    Some(v) => *v,
                    None => LuaValue::Nil,
                },
                default_mode,
            ) == Ok::<_, Seq<char>>(opt_pattern_view(p)),
            Err(e) => pattern_of(
                match value {
                    Some(v) => *v,
                    None => LuaValue::Nil,
                },
                default_mode,
            ) == Err::<Option<Pattern>, _>(e@),
        },
{
    match value {
        None => Ok(None),
        Some(LuaValue::Nil) => Ok(None),
        Some(LuaValue::Text(t)) => Ok(
            Some(RulePattern::from_legacy(t.text.as_str(), default_mode)),
        ),
        Some(LuaValue::Integer(i)) => Ok(
            Some(RulePattern { value: integer(*i as i128), mode: default_mode }),
        ),
        Some(LuaValue::Number(n)) => Ok(
            Some(RulePattern { value: copy(n.text.as_str()), mode: default_mode }),
        ),
        Some(LuaValue::Table(t)) => {
            let text = match parse_optional_string_value(get(t, "value")) {
                Some(s) => s,
                None => {
                    return Err("rule match table requires value");
                },
            };
            let mode: RuleMatchMode = match parse_optional_string_value(get(t, "mode")) {
                Some(name) => match RuleMatchMode::parse(name.as_str()) {
                    Some(m) => m,
                    None => default_mode,
                },
                None => default_mode,
            };
            Ok(Some(RulePattern { value: text, mode }))
        },
        _ => Err("invalid rule match value"),
    }
}

/// The pattern of a value that may be useless.
pub open spec fn lenient_pattern_of(v: LuaValue) -> Option<Pattern> {
    match pattern_of(v, RuleMatchMode::Contains) {
        Ok(p) => p,
        Err(_) => None,
    }
}

fn read_lenient_pattern(value: Option<&LuaValue>) -> (r: Option<RulePattern>)
    ensures
        opt_pattern_view(r) == lenient_pattern_of(
            match value {
                Some(v) => *v,
                None => LuaValue::Nil,
            },
        ),
{
    match parse_match_pattern(value, RuleMatchMode::Contains) {
        Ok(p) => p,
        Err(_) => None,
    }
}

/// The workspace of a rule.
pub open spec fn rule_workspace_of(v: LuaValue) -> Result<Option<Seq<char>>, Seq<char>> {
    match v {
        LuaValue::Nil => Ok(None),
        LuaValue::Text(t) => Ok(Some(t.text@)),
        LuaValue::Integer(i) => if i > 0 {
            Ok(Some(decimal_int(i as int)))
        } else {
            Err("invalid workspace value for rule"@)
        },
        LuaValue::Number(n) => if n.is_positive {
            Ok(Some(decimal(n.byte as nat)))
        } else {
            Err("invalid workspace value for rule"@)
        },
        _ => Err("invalid workspace value for rule"@),
    }
}

pub fn parse_workspace_value(value: Option<&LuaValue>) -> (r: Result<Option<String>, &'static str>)
    ensures
        match r {
            Ok(w) => rule_workspace_of(
                match value {
                    Some(v) => *v,
                    None => LuaValue::Nil,
                },
            ) == Ok::<_, Seq<char>>(opt_view(w)),
            Err(e) => rule_workspace_of(
                match value {
                    Some(v) => *v,
                    None => LuaValue::Nil,
                },
            ) == Err::<Option<Seq<char>>, _>(e@),
        },
{
    match value {
        None => Ok(None),
        Some(LuaValue::Nil) => Ok(None),
        Some(LuaValue::Text(t)) => Ok(Some(copy(t.text.as_str()))),
        Some(LuaValue::Integer(i)) => if *i > 0 {
            Ok(Some(integer(*i as i128)))
        } else {
            Err("invalid workspace value for rule")
        },
        Some(LuaValue::Number(n)) => if n.is_positive {
            Ok(Some(number(n.byte as u64)))
        } else {
            Err("invalid workspace value for rule")
        },
        _ => Err("invalid workspace value for rule"),
    }
}

pub open spec fn or_else(v: Option<i64>, otherwise: i64) -> i64 {
    match v {
        Some(x) => x,
        None => otherwise,
    }
}

/// The rectangle of a rule: a table of its own, or fields beside the others.
pub open spec fn geometry_of(actions: Seq<(String, LuaValue)>) -> Option<RuleGeometry> {
    match field(actions, "geometry"@) {
        LuaValue::Table(g) => Some(
            (
                or_else(loose_number_of(field(g@, "x"@)), 100_000),
                or_else(loose_number_of(field(g@, "y"@)), 100_000),
                or_else(loose_number_of(field(g@, "width"@)), 800_000),
                or_else(loose_number_of(field(g@, "height"@)), 600_000),
            ),
        ),
        _ => {
            let x = number_of(field(actions, "x"@));
            let y = number_of(field(actions, "y"@));
            let width = number_of(field(actions, "width"@));
            let height = number_of(field(actions, "height"@));
            if x is Some || y is Some || width is Some || height is Some {
                Some(
                    (
                        or_else(x, 100_000),
                        or_else(y, 100_000),
                        or_else(width, 800_000),
                        or_else(height, 600_000),
                    ),
                )
            } else {
                None
            }
        },
    }
}

fn value_or(v: Option<i64>, otherwise: i64) -> (r: i64)
    ensures
        r == or_else(v, otherwise),
{
    match v {
        Some(x) => x,
        None => otherwise,
    }
}

pub fn parse_geometry_value(actions: &Vec<(String, LuaValue)>) -> (r: Option<RuleGeometry>)
    ensures
        r == geometry_of(actions@),
{
    if let Some(LuaValue::Table(g)) = get(actions, "geometry") {
        return Some(
            (
                value_or(read_loose_number(get(g, "x")), 100_000),
                value_or(read_loose_number(get(g, "y")), 100_000),
                value_or(read_loose_number(get(g, "width")), 800_000),
                value_or(read_loose_number(get(g, "height")), 600_000),
            ),
        );
    }
    let x = parse_optional_number(get(actions, "x"));
    let y = parse_optional_number(get(actions, "y"));
    let width = parse_optional_number(get(actions, "width"));
    let height = parse_optional_number(get(actions, "height"));
    if x.is_some() || y.is_some() || width.is_some() || height.is_some() {
        Some(
            (
                value_or(x, 100_000),
                value_or(y, 100_000),
                value_or(width, 800_000),
                value_or(height, 600_000),
            ),
        )
    } else {
        None
    }
}

/// Who a rule is, beside what it does.
#[derive(Debug)]
pub struct ParsedRuleMetadata {
    pub id: Option<String>,
    pub name: Option<String>,
    pub enabled: bool,
}

pub open spec fn first_pattern(a: Option<Pattern>, b: Option<Pattern>) -> Option<Pattern> {
    match a {
        Some(p) => Some(p),
        None => b,
    }
}

/// The rule of a table of conditions and a table of actions.
pub open spec fn rule_of(
    id: Option<Seq<char>>,
    name: Option<Seq<char>>,
    enabled: bool,
    conditions: Seq<(String, LuaValue)>,
    actions: Seq<(String, LuaValue)>,
) -> Result<Rule, Seq<char>> {
    let app = pattern_of(field(conditions, "app_name"@), RuleMatchMode::Contains);
    let bundle = pattern_of(field(conditions, "app_bundle"@), RuleMatchMode::Contains);
    let title = pattern_of(field(conditions, "title"@), RuleMatchMode::Contains);
    let workspace = rule_workspace_of(field(actions, "workspace"@));
    if app is Err {
        Err(app->Err_0)
    } else if bundle is Err {
        Err(bundle->Err_0)
    } else if title is Err {
        Err(title->Err_0)
    } else if workspace is Err {
        Err(workspace->Err_0)
    } else {
        Ok(
            Rule {
                id,
                name,
                enabled,
                app_name: first_pattern(
                    first_pattern(app->Ok_0, lenient_pattern_of(field(conditions, "class"@))),
                    lenient_pattern_of(field(conditions, "app"@)),
                ),
                app_bundle: first_pattern(
                    bundle->Ok_0,
                    lenient_pattern_of(field(conditions, "bundle_id"@)),
                ),
                title: title->Ok_0,
                floating: match flag_of(field(actions, "floating"@)) {
                    Some(b) => Some(b),
                    None => flag_of(field(actions, "float"@)),
                },
                workspace: workspace->Ok_0,
                geometry: geometry_of(actions),
            },
        )
    }
}

fn pick_pattern(a: Option<RulePattern>, b: Option<RulePattern>) -> (r: Option<RulePattern>)
    ensures
        opt_pattern_view(r) == first_pattern(opt_pattern_view(a), opt_pattern_view(b)),
{
    match a {
        Some(p) => Some(p),
        None => b,
    }
}

pub open spec fn rule_result(r: Result<WindowRule, &'static str>) -> Result<Rule, Seq<char>> {
    match r {
        Ok(rule) => Ok(rule@),
        Err(e) => Err(e@),
    }
}

/// Reads a rule from a table of conditions and a table of actions.
pub fn parse_rule_tables(
    metadata: ParsedRuleMetadata,
    conditions: &Vec<(String, LuaValue)>,
    actions: &Vec<(String, LuaValue)>,
) -> (r: Result<WindowRule, &'static str>)
    ensures
        rule_result(r) == rule_of(
            opt_view(metadata.id),
            opt_view(metadata.name),
            metadata.enabled,
            conditions@,
            actions@,
        ),
{
    let app = match parse_match_pattern(get(conditions, "app_name"), RuleMatchMode::Contains) {
        Ok(p) => p,
        Err(e) => {
            return Err(e);
        },
    };
    let app_name = pick_pattern(
        pick_pattern(app, read_lenient_pattern(get(conditions, "class"))),
        read_lenient_pattern(get(conditions, "app")),
    );
    let bundle = match parse_match_pattern(get(conditions, "app_bundle"), RuleMatchMode::Contains) {
        Ok(p) => p,
        Err(e) => {
            return Err(e);
        },
    };
    let app_bundle = pick_pattern(bundle, read_lenient_pattern(get(conditions, "bundle_id")));
    let title = match parse_match_pattern(get(conditions, "title"), RuleMatchMode::Contains) {
        Ok(p) => p,
        Err(e) => {
            return Err(e);
        },
    };
    let floating: Option<bool> = match parse_optional_bool(get(actions, "floating")) {
        Some(b) => Some(b),
        None => parse_optional_bool(get(actions, "float")),
    };
    let workspace = match parse_workspace_value(get(actions, "workspace")) {
        Ok(w) => w,
        Err(e) => {
            return Err(e);
        },
    };
    let geometry = parse_geometry_value(actions);
    Ok(
        WindowRule {
            id: metadata.id,
            name: metadata.name,
            enabled: metadata.enabled,
            app_name,
            app_bundle,
            title,
            floating,
            workspace,
            geometry,
        },
    )
}

/// The rule of one table, which may hold tables of conditions and actions.
pub open spec fn structured_rule_of(table: Seq<(String, LuaValue)>) -> Result<Rule, Seq<char>> {
    let enabled = match flag_of(field(table, "enabled"@)) {
        Some(b) => b,
        None => true,
    };
    let conditions = field(table, "match"@);
    let actions = field(table, "actions"@);
    if !(conditions is Table || conditions is Nil) {
        Err("rule.match must be a table"@)
    } else if !(actions is Table || actions is Nil) {
        Err("rule.actions must be a table"@)
    } else {
        rule_of(
            text_of(field(table, "id"@)),
            text_of(field(table, "name"@)),
            enabled,
            match conditions {
                LuaValue::Table(t) => t@,
                _ => table,
            },
            match actions {
                LuaValue::Table(t) => t@,
                _ => table,
            },
        )
    }
}

pub fn parse_structured_rule(table: &Vec<(String, LuaValue)>) -> (r: Result<
    WindowRule,
    &'static str,
>)
    ensures
        rule_result(r) == structured_rule_of(table@),
{
    let metadata = ParsedRuleMetadata {
        id: parse_optional_string_value(get(table, "id")),
        name: parse_optional_string_value(get(table, "name")),
        enabled: match parse_optional_bool(get(table, "enabled")) {
            Some(b) => b,
            None => true,
        },
    };
    let conditions = match get(table, "match") {
        Some(LuaValue::Table(t)) => t,
        None => table,
        Some(LuaValue::Nil) => table,
        _ => {
            return Err("rule.match must be a table");
        },
    };
    let actions = match get(table, "actions") {
        Some(LuaValue::Table(t)) => t,
        None => table,
        Some(LuaValue::Nil) => table,
        _ => {
            return Err("rule.actions must be a table");
        },
    };
    parse_rule_tables(metadata, conditions, actions)
}

/// The rule of the arguments of `gar.rule`.
pub open spec fn rule_of_args(args: Seq<LuaValue>) -> Result<Rule, Seq<char>> {
    if args.len() == 1 && args[0] is Table {
        structured_rule_of(args[0]->Table_0@)
    } else if args.len() == 2 && args[0] is Table && args[1] is Table {
        rule_of(None, None, true, args[0]->Table_0@, args[1]->Table_0@)
    } else {
        Err("gar.rule expects (match, actions) or ({ id, name, enabled, match, actions })"@)
    }
}

/// Reads the arguments of `gar.rule`.
pub fn parse_rule_args(args: &Vec<LuaValue>) -> (r: Result<WindowRule, &'static str>)
    ensures
        rule_result(r) == rule_of_args(args@),
{
    if args.len() == 1 {
        if let LuaValue::Table(t) = &args[0] {
            return parse_structured_rule(t);
        }
    }
    if args.len() == 2 {
        if let LuaValue::Table(conditions) = &args[0] {
            if let LuaValue::Table(actions) = &args[1] {
                return parse_rule_tables(
                    ParsedRuleMetadata { id: None, name: None, enabled: true },
                    conditions,
                    actions,
                );
            }
        }
    }
    Err("gar.rule expects (match, actions) or ({ id, name, enabled, match, actions })")
}

// --- gar.special_workspace ---

/// What a script says about an overlay, as far as it says it.
#[derive(Debug)]
pub struct SpecialOptions {
    pub position: Option<String>,
    pub width: Option<i64>,
    pub height: Option<i64>,
}

/// A share of the screen in thousandths, at least a tenth and at most all.
pub open spec fn clamped_share(v: i64) -> i64 {
    if v < 100 {
        100
    } else if v > 1000 {
        1000
    } else {
        v
    }
}

fn clamp_share(v: i64) -> (r: i64)
    ensures
        r == clamped_share(v),
{
    if v < 100 {
        100
    } else if v > 1000 {
        1000
    } else {
        v
    }
}

/// The overlay that a script asks for; what it leaves out is as by default.
pub open spec fn overlay_asked(name: Seq<char>, options: Option<SpecialOptions>) -> Overlay {
    let usual = default_overlay(name);
    match options {
        None => usual,
        Some(o) => Overlay {
            name,
            position: match o.position {
                Some(p) => p@,
                None => usual.position,
            },
            width: match o.width {
                Some(w) => clamped_share(w),
                None => usual.width,
            },
            height: match o.height {
                Some(h) => clamped_share(h),
                None => usual.height,
            },
        },
    }
}

// --- gar.workspace ---

/// What a script says about a workspace, as far as it says it.
#[derive(Debug)]
pub struct WorkspaceOptions {
    pub monitor: Option<u32>,
    pub layout: Option<String>,
    pub gap_inner: Option<i64>,
    pub gap_outer: Option<i64>,
}

/// The workspace that a value names. A number keeps its lowest byte.
pub open spec fn workspace_asked(v: LuaValue) -> Option<WsId> {
    match v {
        LuaValue::Integer(n) => if n > 0 {
            Some(WsId::Numbered((n % 256) as u8))
        } else {
            None
        },
        LuaValue::Number(n) => if n.is_positive {
            Some(WsId::Numbered(n.byte))
        } else {
            None
        },
        LuaValue::Text(t) => id_named(t.text@),
        _ => None,
    }
}

fn read_workspace(v: &LuaValue) -> (r: Option<WorkspaceId>)
    ensures
        match r {
            Some(id) => workspace_asked(*v) == Some(id@),
            None => workspace_asked(*v) is None,
        },
{
    match v {
        LuaValue::Integer(n) => if *n > 0 {
            Some(WorkspaceId::Numbered((*n % 256) as u8))
        } else {
            None
        },
        LuaValue::Number(n) => if n.is_positive {
            Some(WorkspaceId::Numbered(n.byte))
        } else {
            None
        },
        LuaValue::Text(t) => WorkspaceId::parse(t.text.as_str()),
        _ => None,
    }
}

/// A gap, which is never negative.
pub open spec fn gap_asked(v: Option<i64>) -> Option<i64> {
    match v {
        Some(g) => Some(if g < 0 {
            0i64
        } else {
            g
        }),
        None => None,
    }
}

fn read_gap(v: Option<i64>) -> (r: Option<i64>)
    ensures
        r == gap_asked(v),
{
    match v {
        Some(g) => Some(if g < 0 {
            0i64
        } else {
            g
        }),
        None => None,
    }
}

/// The preferences that a script asks for. A layout that nothing is known of
/// is passed over.
pub open spec fn prefs_asked(options: Option<WorkspaceOptions>) -> WorkspacePrefs {
    match options {
        None => WorkspacePrefs::none(),
        Some(o) => WorkspacePrefs {
            monitor: match o.monitor {
                Some(display_id) => Some(MonitorAssignment { display_id }),
                None => None,
            },
            default_layout: WorkspaceLayout::Bsp,
            gap_inner: gap_asked(o.gap_inner),
            gap_outer: gap_asked(o.gap_outer),
        },
    }
}

fn read_prefs(options: &Option<WorkspaceOptions>) -> (r: WorkspacePrefs)
    ensures
        r == prefs_asked(*options),
{
    let mut prefs: WorkspacePrefs = WorkspacePrefs::default();
    if let Some(o) = options {
        if let Some(display_id) = o.monitor {
            prefs.monitor = Some(MonitorAssignment { display_id });
        }
        if let Some(layout) = &o.layout {
            if let Some(layout) = WorkspaceLayout::parse(layout.as_str()) {
                prefs.default_layout = layout;
            }
        }
        prefs.gap_inner = read_gap(o.gap_inner);
        prefs.gap_outer = read_gap(o.gap_outer);
    }
    prefs
}

/// The definitions with one more, which takes the place of an earlier one of
/// its name.
pub open spec fn with_def(defs: Seq<WsDef>, def: WsDef) -> Seq<WsDef> {
    match first_where(defs, defines(def.id)) {
        Some(i) => defs.update(i, def),
        None => defs.push(def),
    }
}

/// A workspace keeps one definition, the last one that a script gave.
pub proof fn law_one_definition_per_workspace(defs: Seq<WsDef>, def: WsDef)
    requires
        defined_once(defs),
    ensures
        defined_once(default_defs()),
        defined_once(with_def(defs, def)),
        with_def(defs, def).contains(def),
        forall|d: WsDef|
            #![trigger with_def(defs, def).contains(d)]
            d.id != def.id ==> with_def(defs, def).contains(d) == defs.contains(d),
{
    let p = defines(def.id);
    let after = with_def(defs, def);
    lemma_first_where_found(defs, p);
    match first_where(defs, p) {
        Some(i) => {
            assert(after[i] == def);
            assert forall|d: WsDef| #![trigger after.contains(d)] d.id != def.id implies after.contains(
                d,
            ) == defs.contains(d) by {
                if defs.contains(d) {
                    let j = choose|j: int| 0 <= j < defs.len() && defs[j] == d;
                    assert(after[j] == d);
                }
                if after.contains(d) {
                    let j = choose|j: int| 0 <= j < after.len() && after[j] == d;
                    assert(defs[j] == d);
                }
            }
        },
        None => {
            assert forall|i: int| 0 <= i < defs.len() implies (#[trigger] defs[i]).id != def.id by {
                assert(!p(defs[i]));
            }
            assert(after[defs.len() as int] == def);
            assert forall|d: WsDef| #![trigger after.contains(d)] d.id != def.id implies after.contains(
                d,
            ) == defs.contains(d) by {
                if defs.contains(d) {
                    let j = choose|j: int| 0 <= j < defs.len() && defs[j] == d;
                    assert(after[j] == d);
                }
                if after.contains(d) {
                    let j = choose|j: int| 0 <= j < after.len() && after[j] == d;
                    assert(defs[j] == d);
                }
            }
        },
    }
}

// --- gar.exec_once ---

/// The characters before the first white space.
pub open spec fn leading_word(s: Seq<char>) -> Seq<char>
    decreases s.len(),
{
    if s.len() == 0 || is_space(s[0]) {
        seq![]
    } else {
        seq![s[0]] + leading_word(s.drop_first())
    }
}

/// The first word of a command, or the whole command where it has no word.
pub open spec fn program_of(command: Seq<char>) -> Seq<char> {
    let word = leading_word(trim_start(command));
    if word.len() == 0 {
        command
    } else {
        word
    }
}

/// Which program decides whether a command already runs.
pub fn program_name(command: &str) -> (r: String)
    ensures
        r@ == program_of(command@),
{
    let chars = chars_of(command);
    let n: usize = chars.len();
    let mut from: usize = 0;
    assert(chars@.skip(0) =~= chars@);
    while from < n && char_is_space(chars[from])
        invariant
            n == chars@.len(),
            from <= n,
            chars@ == command@,
            trim_start(chars@.skip(from as int)) == trim_start(command@),
        decreases n - from,
    {
        assert(chars@.skip(from as int).drop_first() =~= chars@.skip(from + 1));
        from = from + 1;
    }
    let ghost rest = chars@.skip(from as int);
    assert(trim_start(rest) == rest);
    let mut to: usize = from;
    assert(chars@.subrange(from as int, to as int) =~= seq![]);
    assert(seq![] + leading_word(rest) =~= leading_word(rest));
    while to < n && !char_is_space(chars[to])
        invariant
            n == chars@.len(),
            from <= to <= n,
            rest == chars@.skip(from as int),
            leading_word(rest) == chars@.subrange(from as int, to as int) + leading_word(
                chars@.skip(to as int),
            ),
        decreases n - to,
    {
        let ghost now = chars@.skip(to as int);
        assert(now.drop_first() =~= chars@.skip(to + 1));
        assert(chars@.subrange(from as int, to as int) + (seq![now[0]] + leading_word(
            chars@.skip(to + 1),
        )) =~= chars@.subrange(from as int, to + 1) + leading_word(chars@.skip(to + 1)));
        to = to + 1;
    }
    assert(leading_word(chars@.skip(to as int)) =~= seq![]);
    assert(leading_word(rest) =~= chars@.subrange(from as int, to as int));
    if from == to {
        copy(command)
    } else {
        string_of_range(&chars, from, to)
    }
}

// --- The whole ---

/// A function of the script that waits for an event. The function itself is
/// kept where the script runs, under a handle.
#[derive(Debug)]
pub struct EventCallback {
    pub event: String,
    pub handle: usize,
}

/// What a script asked for.
#[derive(Debug)]
pub struct LuaConfig {
    pub settings: Settings,
    pub keybinds: Vec<LuaKeybind>,
    pub rules: Vec<WindowRule>,
    pub special_configs: Vec<SpecialWorkspaceConfig>,
    pub workspace_defs: Vec<WorkspaceDefinition>,
    pub callbacks: Vec<EventCallback>,
}

/// What a script asked for, as a mathematical value.
#[verifier::ext_equal]
pub struct Script {
    pub setup: Setup,
    pub binds: Seq<Bind>,
    pub rules: Seq<Rule>,
    pub overlays: Seq<Overlay>,
    pub defs: Seq<WsDef>,
    pub callbacks: Seq<(Seq<char>, usize)>,
}

pub open spec fn callback_views(s: Seq<EventCallback>) -> Seq<(Seq<char>, usize)> {
    Seq::new(s.len(), |i: int| (s[i].event@, s[i].handle))
}

impl View for LuaConfig {
    type V = Script;

    open spec fn view(&self) -> Script {
        Script {
            setup: self.settings@,
            binds: bind_views(self.keybinds@),
            rules: rule_views(self.rules@),
            overlays: overlay_views(self.special_configs@),
            defs: def_views(self.workspace_defs@),
            callbacks: callback_views(self.callbacks@),
        }
    }
}

/// The handles of those that wait for an event, in their order.
pub open spec fn waiting(callbacks: Seq<(Seq<char>, usize)>, event: Seq<char>) -> Seq<usize>
    decreases callbacks.len(),
{
    if callbacks.len() == 0 {
        seq![]
    } else {
        let before = waiting(callbacks.drop_last(), event);
        if callbacks.last().0 == event {
            before.push(callbacks.last().1)
        } else {
            before
        }
    }
}

impl Script {
    /// Before a script has asked for anything.
    pub open spec fn blank() -> Script {
        Script {
            setup: Setup::standard(),
            binds: seq![],
            rules: seq![],
            overlays: seq![],
            defs: default_defs(),
            callbacks: seq![],
        }
    }

    /// Without a script.
    pub open spec fn standard(setup: Setup) -> Script {
        Script {
            setup,
            binds: default_binds(setup.mod_key),
            rules: seq![],
            overlays: seq![],
            defs: default_defs(),
            callbacks: seq![],
        }
    }

    /// Once the script has run: without key bindings the usual ones hold, and
    /// the workspaces are in order.
    pub open spec fn finished(self) -> Script {
        Script {
            binds: if self.binds.len() == 0 {
                default_binds(self.setup.mod_key)
            } else {
                self.binds
            },
            defs: ordered_defs(self.defs, DefOrder::Kind),
            ..self
        }
    }
}

/// What holds where there is no script.
pub fn default_lua_config(settings: Settings) -> (r: LuaConfig)
    ensures
        r@ == Script::standard(settings@),
{
    let keybinds = default_keybinds(&settings);
    let r = LuaConfig {
        settings,
        keybinds,
        rules: Vec::new(),
        special_configs: Vec::new(),
        workspace_defs: default_workspace_definitions(),
        callbacks: Vec::new(),
    };
    assert(r@ =~= Script::standard(settings@));
    r
}

impl LuaConfig {
    /// Before a script runs.
    pub fn start() -> (r: LuaConfig)
        ensures
            r@ == Script::blank(),
    {
        let r = LuaConfig {
            settings: Settings::default(),
            keybinds: Vec::new(),
            rules: Vec::new(),
            special_configs: Vec::new(),
            workspace_defs: default_workspace_definitions(),
            callbacks: Vec::new(),
        };
        assert(r@ =~= Script::blank());
        r
    }

    /// `gar.set(key, value)`; `description` is how the value prints itself.
    pub fn set(&mut self, key: &str, value: &LuaValue, description: &str)
        ensures
            final(self)@ == (Script {
                setup: old(self)@.setup.with_setting(key@, setting_text(*value, description@)),
                ..old(self)@
            }),
    {
        let text = setting_string(value, description);
        self.settings.set(key, text.as_str());
    }

    /// `gar.bind(keys, action)`. What cannot be read is passed over, with the
    /// reason.
    pub fn bind(&mut self, keys: &str, action: &str) -> (r: Result<(), &'static str>)
        ensures
            match bind_named(lowered_parts(key_parts(keys@)), action@, old(self)@.setup.mod_key) {
                Ok(bind) => r is Ok && final(self)@ == (Script {
                    binds: old(self)@.binds.push(bind),
                    ..old(self)@
                }),
                Err(e) => (r matches Err(m) && m@ == e) && final(self)@ == old(self)@,
            },
            all_ascii_parts(key_parts(keys@)) ==> lowered_parts(key_parts(keys@))
                == ascii_lowered_parts(key_parts(keys@)),
    {
        match parse_keybind_and_action(keys, action, self.settings.mod_key) {
            Ok(bind) => {
                self.keybinds.push(bind);
                assert(self@ =~= Script {
                    binds: old(self)@.binds.push(bind@),
                    ..old(self)@
                });
                Ok(())
            },
            Err(e) => Err(e),
        }
    }

    /// `gar.rule(...)`. A rule that cannot be read ends the script, with the
    /// reason.
    pub fn rule(&mut self, args: &Vec<LuaValue>) -> (r: Result<(), &'static str>)
        ensures
            match rule_of_args(args@) {
                Ok(rule) => r is Ok && final(self)@ == (Script {
                    rules: old(self)@.rules.push(rule),
                    ..old(self)@
                }),
                Err(e) => (r matches Err(m) && m@ == e) && final(self)@ == old(self)@,
            },
    {
        match parse_rule_args(args) {
            Ok(rule) => {
                self.rules.push(rule);
                assert(self@ =~= Script { rules: old(self)@.rules.push(rule@), ..old(self)@ });
                Ok(())
            },
            Err(e) => Err(e),
        }
    }

    /// `gar.on(event, function)`.
    pub fn on(&mut self, event: &str, handle: usize)
        ensures
            final(self)@ == (Script {
                callbacks: old(self)@.callbacks.push((event@, handle)),
                ..old(self)@
            }),
    {
        self.callbacks.push(EventCallback { event: copy(event), handle });
        assert(self@ =~= Script {
            callbacks: old(self)@.callbacks.push((event@, handle)),
            ..old(self)@
        });
    }

    /// `gar.special_workspace(name, options)`.
    pub fn special_workspace(&mut self, name: &str, options: &Option<SpecialOptions>)
        ensures
            final(self)@ == (Script {
                overlays: old(self)@.overlays.push(overlay_asked(name@, *options)),
                ..old(self)@
            }),
    {
        let mut config = SpecialWorkspaceConfig::default_for(name);
        if let Some(o) = options {
            if let Some(position) = &o.position {
                config.position = copy(position.as_str());
            }
            if let Some(width) = o.width {
                config.width = clamp_share(width);
            }
            if let Some(height) = o.height {
                config.height = clamp_share(height);
            }
        }
        assert(config@ == overlay_asked(name@, *options));
        self.special_configs.push(config);
        assert(self@ =~= Script {
            overlays: old(self)@.overlays.push(overlay_asked(name@, *options)),
            ..old(self)@
        });
    }

    /// `gar.workspace(id, options)`. A name that is none ends the script, with
    /// the reason.
    pub fn workspace(&mut self, id: &LuaValue, options: &Option<WorkspaceOptions>) -> (r: Result<
        (),
        &'static str,
    >)
        ensures
            match workspace_asked(*id) {
                Some(name) => r is Ok && final(self)@ == (Script {
                    defs: with_def(
                        old(self)@.defs,
                        (WsDef { prefs: prefs_asked(*options), ..plain_def(name) }),
                    ),
                    ..old(self)@
                }),
                None => (r matches Err(m) && m@ == "invalid workspace id"@) && final(self)@ == old(
                    self,
                )@,
            },
    {
        let name = match read_workspace(id) {
            Some(name) => name,
            None => {
                return Err("invalid workspace id");
            },
        };
        let mut def = WorkspaceDefinition::new(name);
        def.prefs = read_prefs(options);
        let ghost new = def@;
        let ghost views = def_views(self.workspace_defs@);
        let ghost p = defines(def@.id);
        let mut i: usize = 0;
        while i < self.workspace_defs.len()
            invariant
                self@ == old(self)@,
                views == def_views(self.workspace_defs@),
                def@ == new,
                workspace_asked(*id) == Some(new.id),
                new == (WsDef { prefs: prefs_asked(*options), ..plain_def(new.id) }),
                p == defines(new.id),
                i <= self.workspace_defs@.len(),
                forall|j: int| 0 <= j < i ==> !p(#[trigger] views[j]),
            decreases self.workspace_defs.len() - i,
        {
            assert(views[i as int] == self.workspace_defs@[i as int]@);
            if self.workspace_defs[i].id.is(&def.id) {
                proof {
                    lemma_first_where(views, p, i as int);
                }
                self.workspace_defs[i] = def;
                assert(self@ =~= Script { defs: views.update(i as int, new), ..old(self)@ });
                return Ok(());
            }
            i = i + 1;
        }
        proof {
            lemma_first_where_none(views, p);
        }
        self.workspace_defs.push(def);
        assert(self@ =~= Script { defs: views.push(new), ..old(self)@ });
        Ok(())
    }

    /// Once the script has run.
    pub fn finish(self) -> (r: LuaConfig)
        ensures
            r@ == self@.finished(),
    {
        let keybinds = if self.keybinds.len() == 0 {
            default_keybinds(&self.settings)
        } else {
            self.keybinds
        };
        let workspace_defs = dedup_defs(sort_defs(self.workspace_defs, DefOrder::Kind));
        let r = LuaConfig {
            settings: self.settings,
            keybinds,
            rules: self.rules,
            special_configs: self.special_configs,
            workspace_defs,
            callbacks: self.callbacks,
        };
        assert(r@ =~= self@.finished());
        r
    }

    /// Which functions of the script an event calls, by their handles.
    pub fn fire_event(&self, event: &str) -> (r: Vec<usize>)
        ensures
            r@ == waiting(self@.callbacks, event@),
    {
        let ghost all = self@.callbacks;
        let mut handles: Vec<usize> = Vec::new();
        let mut i: usize = 0;
        assert(handles@ =~= waiting(all.take(0), event@));
        while i < self.callbacks.len()
            invariant
                all == callback_views(self.callbacks@),
                i <= self.callbacks@.len(),
                handles@ == waiting(all.take(i as int), event@),
            decreases self.callbacks.len() - i,
        {
            proof {
                assert(all.take(i + 1).drop_last() =~= all.take(i as int));
                assert(all.take(i + 1).last() == all[i as int]);
            }
            if same(self.callbacks[i].event.as_str(), event) {
                handles.push(self.callbacks[i].handle);
            }
            i = i + 1;
        }
        assert(all.take(all.len() as int) =~= all);
        handles
    }
}

} // verus!
