//! Rules that decide what happens to a new window.
use vstd::prelude::*;
use crate::config::numbers::{whole_number, whole_text};
use crate::text::{
    all_ascii, ascii_lowered, chars_of, contains_text, copy, copy_opt, decimal,
    eq_ignore_ascii_case, has_part, join, joined, number, opt_view, padded_number, same, same_opt,
    string_of_range, to_ascii_lowercase, to_lowercase, trim, trimmed, unicode_lowercase, views,
    zero_padded,
};

verus! {

/// How a pattern is compared with a text.
#[derive(Clone, Copy, Debug, PartialEq, Eq, Structural)]
pub enum RuleMatchMode {
    /// The text holds the pattern, whatever the case.
    Contains,
    /// The text is the pattern, but for the case of ASCII letters.
    Exact,
    /// The pattern is a regular expression that the text matches somewhere.
    Regex,
}

/// The mode of a name.
pub open spec fn mode_named(s: Seq<char>) -> Option<RuleMatchMode> {
    let t = ascii_lowered(s);
    if t == "contains"@ {
        Some(RuleMatchMode::Contains)
    } else if t == "exact"@ {
        Some(RuleMatchMode::Exact)
    } else if t == "regex"@ {
        Some(RuleMatchMode::Regex)
    } else {
        None
    }
}

impl RuleMatchMode {
    pub open spec fn name(self) -> Seq<char> {
        match self {
            RuleMatchMode::Contains => "contains"@,
            RuleMatchMode::Exact => "exact"@,
            RuleMatchMode::Regex => "regex"@,
        }
    }

    pub fn parse(value: &str) -> (r: Option<Self>)
        ensures
            r == mode_named(value@),
    {
        let lower = to_ascii_lowercase(value);
        if same(lower.as_str(), "contains") {
            Some(RuleMatchMode::Contains)
        } else if same(lower.as_str(), "exact") {
            Some(RuleMatchMode::Exact)
        } else if same(lower.as_str(), "regex") {
            Some(RuleMatchMode::Regex)
        } else {
            None
        }
    }

    pub fn as_str(&self) -> (r: &'static str)
        ensures
            r@ == self.name(),
    {
        match self {
            RuleMatchMode::Contains => "contains",
            RuleMatchMode::Exact => "exact",
            RuleMatchMode::Regex => "regex",
        }
    }
}

/// The name of a mode is read back.
pub proof fn law_mode_round_trip(m: RuleMatchMode)
    ensures
        mode_named(m.name()) == Some(m),
{
    reveal_strlit("contains");
    reveal_strlit("exact");
    reveal_strlit("regex");
    assert(ascii_lowered("contains"@) =~= "contains"@);
    assert(ascii_lowered("exact"@) =~= "exact"@);
    assert(ascii_lowered("regex"@) =~= "regex"@);
    assert("contains"@.len() == 8 && "exact"@.len() == 5 && "regex"@.len() == 5);
    assert("exact"@[0] != "regex"@[0]);
}

/// What `regex::RegexBuilder`, told whether to ignore case, and
/// `Regex::is_match` give for a pattern and a text: nothing if the pattern is no
/// valid regular expression, else whether it matches somewhere in the text.
pub uninterp spec fn regex_search(
    pattern: Seq<char>,
    ignore_case: bool,
    text: Seq<char>,
) -> Option<bool>;

/// Builds a regular expression with `regex::RegexBuilder` and searches the text
/// with `Regex::is_match`. The result depends on the arguments alone; what a
/// pattern means is left to the `regex` crate.
#[verifier::external_body]
fn search_regex(pattern: &str, ignore_case: bool, text: &str) -> (r: Option<bool>)
    ensures
        r == regex_search(pattern@, ignore_case, text@),
{
    match regex::RegexBuilder::new(pattern).case_insensitive(ignore_case).build() {
        Ok(expression) => Some(expression.is_match(text)),
        Err(_) => None,
    }
}

/// A text to compare with and how to compare.
#[derive(Debug, PartialEq, Eq)]
pub struct RulePattern {
    pub value: String,
    pub mode: RuleMatchMode,
}

/// A pattern as a mathematical value.
pub struct Pattern {
    pub value: Seq<char>,
    pub mode: RuleMatchMode,
}

impl View for RulePattern {
    type V = Pattern;

    open spec fn view(&self) -> Pattern {
        Pattern { value: self.value@, mode: self.mode }
    }
}

impl Clone for RulePattern {
    fn clone(&self) -> (r: Self)
        ensures
            r@ == self@,
    {
        RulePattern { value: copy(self.value.as_str()), mode: self.mode }
    }
}

/// A text between slashes is a regular expression.
pub open spec fn legacy_pattern(value: Seq<char>, mode: RuleMatchMode) -> Pattern {
    if value.len() > 2 && value[0] == '/' && value.last() == '/' {
        Pattern { value: value.subrange(1, value.len() - 1), mode: RuleMatchMode::Regex }
    } else {
        Pattern { value, mode }
    }
}

/// Whether a text matches, given the lower-case forms of the text and of the
/// pattern and what the search for the pattern found.
pub open spec fn verdict(
    pattern: Pattern,
    text: Seq<char>,
    lower_text: Seq<char>,
    lower_value: Seq<char>,
    found: Option<bool>,
) -> bool {
    match pattern.mode {
        RuleMatchMode::Contains => has_part(lower_text, lower_value),
        RuleMatchMode::Exact => ascii_lowered(text) == ascii_lowered(pattern.value),
        RuleMatchMode::Regex => found == Some(true),
    }
}

impl Pattern {
    /// Whether a text matches.
    pub open spec fn matches(self, text: Seq<char>) -> bool {
        verdict(
            self,
            text,
            unicode_lowercase(text),
            unicode_lowercase(self.value),
            regex_search(self.value, true, text),
        )
    }

    /// The pattern as one text: a regular expression between slashes.
    pub open spec fn display(self) -> Seq<char> {
        match self.mode {
            RuleMatchMode::Regex => seq!['/'] + self.value + seq!['/'],
            _ => self.value,
        }
    }
}

impl RulePattern {
    pub fn new(value: &str, mode: RuleMatchMode) -> (r: Self)
        ensures
            r@ == (Pattern { value: value@, mode }),
    {
        RulePattern { value: copy(value), mode }
    }

    /// A text between slashes becomes a regular expression.
    pub fn from_legacy(value: &str, default_mode: RuleMatchMode) -> (r: Self)
        ensures
            r@ == legacy_pattern(value@, default_mode),
    {
        let v = chars_of(value);
        let n: usize = v.len();
        if n > 2 && v[0] == '/' && v[n - 1] == '/' {
            RulePattern { value: string_of_range(&v, 1, n - 1), mode: RuleMatchMode::Regex }
        } else {
            RulePattern::new(value, default_mode)
        }
    }

    /// Whether a text matches; an invalid regular expression matches nothing.
    pub fn matches(&self, haystack: &str) -> (r: bool)
        ensures
            r == self@.matches(haystack@),
            self.mode == RuleMatchMode::Contains && all_ascii(haystack@) && all_ascii(self.value@)
                ==> r == has_part(ascii_lowered(haystack@), ascii_lowered(self.value@)),
    {
        match self.mode {
            RuleMatchMode::Contains => {
                let text = to_lowercase(haystack);
                let value = to_lowercase(self.value.as_str());
                self.matches_given(haystack, text.as_str(), value.as_str(), None)
            },
            RuleMatchMode::Exact => self.matches_given(haystack, "", "", None),
            RuleMatchMode::Regex => {
                let found = search_regex(self.value.as_str(), true, haystack);
                self.matches_given(haystack, "", "", found)
            },
        }
    }

    /// Whether a text matches, given its lower-case form, that of the pattern,
    /// and what a search for the pattern as a regular expression found.
    pub fn matches_given(
        &self,
        haystack: &str,
        lower_text: &str,
        lower_value: &str,
        found: Option<bool>,
    ) -> (r: bool)
        ensures
            r == verdict(self@, haystack@, lower_text@, lower_value@, found),
    {
        match self.mode {
            RuleMatchMode::Contains => contains_text(lower_text, lower_value),
            RuleMatchMode::Exact => eq_ignore_ascii_case(haystack, self.value.as_str()),
            RuleMatchMode::Regex => match found {
                Some(hit) => hit,
                None => false,
            },
        }
    }

    pub fn legacy_display(&self) -> (r: String)
        ensures
            r@ == self@.display(),
    {
        match self.mode {
            RuleMatchMode::Regex => {
                let mut out = String::new();
                out.push('/');
                out.push_str(self.value.as_str());
                out.push('/');
                assert(out@ =~= self@.display());
                out
            },
            _ => copy(self.value.as_str()),
        }
    }
}

/// What is displayed of a pattern is read back as the same pattern, if a
/// regular expression is not empty and another pattern is not between slashes.
pub proof fn law_pattern_display_round_trip(p: Pattern)
    requires
        p.mode is Regex ==> p.value.len() > 0,
        !(p.mode is Regex) ==> !(p.value.len() > 2 && p.value[0] == '/' && p.value.last() == '/'),
    ensures
        legacy_pattern(p.display(), p.mode) == p,
{
    if p.mode is Regex {
        assert(p.display().subrange(1, p.display().len() - 1) =~= p.value);
    }
}

pub open spec fn opt_pattern(p: Option<RulePattern>) -> Option<Pattern> {
    match p {
        Some(x) => Some(x@),
        None => None,
    }
}

/// A place and a size: x, y, width and height.
pub type RuleGeometry = (i64, i64, i64, i64);

/// What to do with windows of a kind.
#[derive(Debug, PartialEq)]
pub struct WindowRule {
    pub id: Option<String>,
    pub name: Option<String>,
    pub enabled: bool,
    pub app_name: Option<RulePattern>,
    pub app_bundle: Option<RulePattern>,
    pub title: Option<RulePattern>,
    pub floating: Option<bool>,
    /// The workspace to send the window to.
    pub workspace: Option<String>,
    pub geometry: Option<RuleGeometry>,
}

/// A rule as a mathematical value.
pub struct Rule {
    pub id: Option<Seq<char>>,
    pub name: Option<Seq<char>>,
    pub enabled: bool,
    pub app_name: Option<Pattern>,
    pub app_bundle: Option<Pattern>,
    pub title: Option<Pattern>,
    pub floating: Option<bool>,
    pub workspace: Option<Seq<char>>,
    pub geometry: Option<RuleGeometry>,
}

impl View for WindowRule {
    type V = Rule;

    open spec fn view(&self) -> Rule {
        Rule {
            id: opt_view(self.id),
            name: opt_view(self.name),
            enabled: self.enabled,
            app_name: opt_pattern(self.app_name),
            app_bundle: opt_pattern(self.app_bundle),
            title: opt_pattern(self.title),
            floating: self.floating,
            workspace: opt_view(self.workspace),
            geometry: self.geometry,
        }
    }
}

fn copy_pattern(p: &Option<RulePattern>) -> (r: Option<RulePattern>)
    ensures
        opt_pattern(r) == opt_pattern(*p),
{
    match p {
        Some(x) => Some(x.clone()),
        None => None,
    }
}

fn same_pattern(a: &Option<RulePattern>, b: &Option<RulePattern>) -> (r: bool)
    ensures
        r == (opt_pattern(*a) == opt_pattern(*b)),
{
    match (a, b) {
        (Some(x), Some(y)) => x.mode == y.mode && same(x.value.as_str(), y.value.as_str()),
        (None, None) => true,
        _ => false,
    }
}

fn same_geometry(a: &Option<RuleGeometry>, b: &Option<RuleGeometry>) -> (r: bool)
    ensures
        r == (*a == *b),
{
    match (a, b) {
        (Some(x), Some(y)) => x.0 == y.0 && x.1 == y.1 && x.2 == y.2 && x.3 == y.3,
        (None, None) => true,
        _ => false,
    }
}

impl Clone for WindowRule {
    fn clone(&self) -> (r: Self)
        ensures
            r@ == self@,
    {
        WindowRule {
            id: copy_opt(&self.id),
            name: copy_opt(&self.name),
            enabled: self.enabled,
            app_name: copy_pattern(&self.app_name),
            app_bundle: copy_pattern(&self.app_bundle),
            title: copy_pattern(&self.title),
            floating: self.floating,
            workspace: copy_opt(&self.workspace),
            geometry: self.geometry,
        }
    }
}

pub open spec fn matches_if_given(p: Option<Pattern>, text: Seq<char>) -> bool {
    match p {
        Some(x) => x.matches(text),
        None => true,
    }
}

/// The number of a rule without a name of its own.
pub open spec fn default_rule_id(index: nat) -> Seq<char> {
    "rule_"@ + zero_padded(decimal(index + 1), 3)
}

impl Rule {
    /// A rule that matches everything and does nothing.
    pub open spec fn blank() -> Rule {
        Rule {
            id: None,
            name: None,
            enabled: true,
            app_name: None,
            app_bundle: None,
            title: None,
            floating: None,
            workspace: None,
            geometry: None,
        }
    }

    /// The identifier of the rule at an index: its own unless it is blank.
    pub open spec fn effective_id(self, index: nat) -> Seq<char> {
        match self.id {
            Some(id) if trimmed(id).len() > 0 => id,
            _ => default_rule_id(index),
        }
    }

    /// The name of the rule at an index: its own unless it is blank.
    pub open spec fn effective_name(self, index: nat) -> Seq<char> {
        match self.name {
            Some(name) if trimmed(name).len() > 0 => name,
            _ => "Rule "@ + decimal(index + 1),
        }
    }

    /// Whether the rule is for a window: enabled, and every pattern matches.
    pub open spec fn is_for(
        self,
        app_name: Seq<char>,
        app_bundle: Seq<char>,
        title: Seq<char>,
    ) -> bool {
        self.enabled && matches_if_given(self.app_name, app_name) && matches_if_given(
            self.app_bundle,
            app_bundle,
        ) && matches_if_given(self.title, title)
    }

    /// What the rule asks of a window, in words.
    pub open spec fn condition_text(self) -> Seq<char> {
        let parts = labelled("app_name="@, self.app_name) + labelled(
            "app_bundle="@,
            self.app_bundle,
        ) + labelled("title="@, self.title);
        if parts.len() == 0 {
            "*"@
        } else {
            joined(parts, ", "@)
        }
    }

    /// What the rule does, in words.
    pub open spec fn effect_text(self) -> Seq<char> {
        let floating = if self.floating == Some(true) { seq!["floating=true"@] } else { seq![] };
        let workspace = match self.workspace {
            Some(w) => seq!["workspace="@ + w],
            None => seq![],
        };
        let geometry = match self.geometry {
            Some((x, y, width, height)) => seq![
                "geometry="@ + whole_text(x as int) + ","@ + whole_text(y as int) + ","@
                    + whole_text(width as int) + ","@ + whole_text(height as int),
            ],
            None => seq![],
        };
        let parts = floating + workspace + geometry;
        if parts.len() == 0 {
            "none"@
        } else {
            joined(parts, ", "@)
        }
    }
}

pub open spec fn labelled(label: Seq<char>, p: Option<Pattern>) -> Seq<Seq<char>> {
    match p {
        Some(x) => seq![label + x.display()],
        None => seq![],
    }
}

impl Default for WindowRule {
    fn default() -> (r: Self)
        ensures
            r@ == Rule::blank(),
    {
        WindowRule::new()
    }
}

impl WindowRule {
    pub fn new() -> (r: Self)
        ensures
            r@ == Rule::blank(),
    {
        WindowRule {
            id: None,
            name: None,
            enabled: true,
            app_name: None,
            app_bundle: None,
            title: None,
            floating: None,
            workspace: None,
            geometry: None,
        }
    }

    /// Whether two rules are the same.
    pub fn is(&self, other: &WindowRule) -> (r: bool)
        ensures
            r == (self@ == other@),
    {
        same_opt(&self.id, &other.id) && same_opt(&self.name, &other.name) && self.enabled
            == other.enabled && same_pattern(&self.app_name, &other.app_name) && same_pattern(
            &self.app_bundle,
            &other.app_bundle,
        ) && same_pattern(&self.title, &other.title) && self.floating == other.floating
            && same_opt(&self.workspace, &other.workspace) && same_geometry(
            &self.geometry,
            &other.geometry,
        )
    }

    pub fn effective_id(&self, index: usize) -> (r: String)
        requires
            index < usize::MAX,
        ensures
            r@ == self@.effective_id(index as nat),
    {
        if let Some(id) = &self.id {
            if !trim(id.as_str()).as_str().is_empty() {
                return copy(id.as_str());
            }
        }
        rule_id_text(index + 1)
    }

    pub fn effective_name(&self, index: usize) -> (r: String)
        requires
            index < usize::MAX,
        ensures
            r@ == self@.effective_name(index as nat),
    {
        if let Some(name) = &self.name {
            if !trim(name.as_str()).as_str().is_empty() {
                return copy(name.as_str());
            }
        }
        let mut out = copy("Rule ");
        out.push_str(number((index + 1) as u64).as_str());
        out
    }

    pub fn matches_window(&self, app_name: &str, app_bundle: &str, title: &str) -> (r: bool)
        ensures
            r == self@.is_for(app_name@, app_bundle@, title@),
    {
        self.enabled && pattern_or_any(&self.app_name, app_name) && pattern_or_any(
            &self.app_bundle,
            app_bundle,
        ) && pattern_or_any(&self.title, title)
    }
}

fn pattern_or_any(p: &Option<RulePattern>, text: &str) -> (r: bool)
    ensures
        r == matches_if_given(opt_pattern(*p), text@),
{
    match p {
        Some(x) => x.matches(text),
        None => true,
    }
}

/// The identifier of the `n`-th rule.
pub fn rule_id_text(n: usize) -> (r: String)
    ensures
        r@ == "rule_"@ + zero_padded(decimal(n as nat), 3),
{
    let mut out = copy("rule_");
    out.push_str(padded_number(n as u64, 3).as_str());
    out
}

fn push_labelled(parts: &mut Vec<String>, label: &str, p: &Option<RulePattern>)
    ensures
        views(final(parts)@) == views(old(parts)@) + labelled(label@, opt_pattern(*p)),
{
    match p {
        Some(x) => {
            let mut out = copy(label);
            out.push_str(x.legacy_display().as_str());
            parts.push(out);
        },
        None => {},
    }
    assert(views(parts@) =~= views(old(parts)@) + labelled(label@, opt_pattern(*p)));
}

/// What a rule asks of a window, in words.
pub fn format_rule_match(rule: &WindowRule) -> (r: String)
    ensures
        r@ == rule@.condition_text(),
{
    let mut parts: Vec<String> = Vec::new();
    assert(views(parts@) =~= seq![]);
    push_labelled(&mut parts, "app_name=", &rule.app_name);
    push_labelled(&mut parts, "app_bundle=", &rule.app_bundle);
    push_labelled(&mut parts, "title=", &rule.title);
    let ghost all = labelled("app_name="@, rule@.app_name) + labelled(
        "app_bundle="@,
        rule@.app_bundle,
    ) + labelled("title="@, rule@.title);
    assert(views(parts@) =~= all);
    if parts.is_empty() {
        copy("*")
    } else {
        join(&parts, ", ")
    }
}

/// What a rule does, in words.
pub fn format_rule_action(rule: &WindowRule) -> (r: String)
    ensures
        r@ == rule@.effect_text(),
{
    let mut parts: Vec<String> = Vec::new();
    let ghost floating = if rule.floating == Some(true) {
        seq!["floating=true"@]
    } else {
        seq![]
    };
    if let Some(f) = rule.floating {
        if f {
            parts.push(copy("floating=true"));
        }
    }
    assert(views(parts@) =~= floating);
    let ghost workspace = match rule@.workspace {
        Some(w) => seq!["workspace="@ + w],
        None => seq![],
    };
    if let Some(w) = &rule.workspace {
        let mut out = copy("workspace=");
        out.push_str(w.as_str());
        parts.push(out);
    }
    assert(views(parts@) =~= floating + workspace);
    let ghost geometry = match rule.geometry {
        Some((x, y, width, height)) => seq![
            "geometry="@ + whole_text(x as int) + ","@ + whole_text(y as int) + ","@ + whole_text(
                width as int,
            ) + ","@ + whole_text(height as int),
        ],
        None => seq![],
    };
    if let Some((x, y, width, height)) = rule.geometry {
        let mut out = copy("geometry=");
        out.push_str(whole_number(x).as_str());
        out.push_str(",");
        out.push_str(whole_number(y).as_str());
        out.push_str(",");
        out.push_str(whole_number(width).as_str());
        out.push_str(",");
        out.push_str(whole_number(height).as_str());
        parts.push(out);
    }
    assert(views(parts@) =~= floating + workspace + geometry);
    if parts.is_empty() {
        copy("none")
    } else {
        join(&parts, ", ")
    }
}

} // verus!
