//! Laws of what scripts and the managed part of the configuration ask for.
use vstd::prelude::*;
use crate::config::document::Managed;
use crate::config::keybinds::{
    basic_binds, default_binds, key_named, name_of_key, workspace_binds, workspace_binds_upto,
};
use crate::config::lua::{
    default_defs, field, is_entry, leading_word, overlay_asked, prefs_asked, program_of,
    rule_of_args, setting_text, workspace_asked, LuaValue, Script, SpecialOptions, WorkspaceOptions,
};
use crate::config::order::{id_after, DefOrder};
use crate::config::rules::{regex_search, Pattern, Rule, RuleMatchMode};
use crate::config::special::is_overlay_of;
use crate::config::rows::ConfigSource;
use crate::config::workspaces::{resolved_def, resolved_overlay, workspace_source};
use crate::seqs::{
    is_first_where, is_last_where, last_where, left_out, lemma_first_where, lemma_last_where,
    lemma_last_where_push,
};
use crate::text::{
    ascii_lowered, decimal, has_part, holds_at, is_space, trim_start, unicode_lowercase,
};
use crate::wm::input::{Act, Key, Modifiers, SHIFT_BIT};
use crate::wm::state::defines;
use crate::wm::workspace::{id_named, WorkspaceTarget, WsDef, WsId};

verus! {

// --- Rules ---

/// Whether a table says something under a name; of several entries the first counts.
pub open spec fn says(table: Seq<(String, LuaValue)>, name: Seq<char>, v: LuaValue) -> bool {
    exists|k: int| #[trigger] first_entry(table, name, k) && table[k].1 == v
}

/// Whether an entry of a table is the first of a name.
pub open spec fn first_entry(table: Seq<(String, LuaValue)>, name: Seq<char>, k: int) -> bool {
    &&& 0 <= k < table.len()
    &&& table[k].0@ == name
    &&& forall|j: int| 0 <= j < k ==> (#[trigger] table[j]).0@ != name
}

proof fn lemma_says(table: Seq<(String, LuaValue)>, name: Seq<char>, v: LuaValue)
    requires
        says(table, name, v),
    ensures
        field(table, name) == v,
{
    let k = choose|k: int| #[trigger] first_entry(table, name, k) && table[k].1 == v;
    assert(is_first_where(table, is_entry(name), k));
    lemma_first_where(table, is_entry(name), k);
}

/// A rule with a rectangle of whole numbers has it in points: `x`, `y`, `width` and `height` under
/// these names, in this order.
pub proof fn law_rule_rectangle_is_read(
    conditions: LuaValue,
    actions: LuaValue,
    rectangle: LuaValue,
    x: i64,
    y: i64,
    width: i64,
    height: i64,
)
    requires
        conditions is Table,
        actions is Table,
        rectangle is Table,
        says(actions->Table_0@, "geometry"@, rectangle),
        says(rectangle->Table_0@, "x"@, LuaValue::Integer(x)),
        says(rectangle->Table_0@, "y"@, LuaValue::Integer(y)),
        says(rectangle->Table_0@, "width"@, LuaValue::Integer(width)),
        says(rectangle->Table_0@, "height"@, LuaValue::Integer(height)),
        i64::MIN <= 1000 * x <= i64::MAX,
        i64::MIN <= 1000 * y <= i64::MAX,
        i64::MIN <= 1000 * width <= i64::MAX,
        i64::MIN <= 1000 * height <= i64::MAX,
    ensures
        rule_of_args(seq![conditions, actions]) matches Ok(r) ==> r.geometry == Some(
            (
                (1000 * x) as i64,
                (1000 * y) as i64,
                (1000 * width) as i64,
                (1000 * height) as i64,
            ),
        ),
{
    lemma_says(actions->Table_0@, "geometry"@, rectangle);
    lemma_says(rectangle->Table_0@, "x"@, LuaValue::Integer(x));
    lemma_says(rectangle->Table_0@, "y"@, LuaValue::Integer(y));
    lemma_says(rectangle->Table_0@, "width"@, LuaValue::Integer(width));
    lemma_says(rectangle->Table_0@, "height"@, LuaValue::Integer(height));
}

/// A rule that is read from tables of conditions and actions holds, floats windows or not as
/// `floating` says, and sends them to the workspace that `workspace` names.
pub proof fn law_rule_actions_are_read(
    conditions: LuaValue,
    actions: LuaValue,
    floating: bool,
    workspace: LuaValue,
)
    requires
        conditions is Table,
        actions is Table,
        says(actions->Table_0@, "floating"@, LuaValue::Boolean(floating)),
        says(actions->Table_0@, "workspace"@, workspace),
        workspace is Text,
    ensures
        rule_of_args(seq![conditions, actions]) matches Ok(r) ==> {
            &&& r.enabled
            &&& r.floating == Some(floating)
            &&& r.workspace == Some(workspace->Text_0.text@)
        },
{
    lemma_says(actions->Table_0@, "floating"@, LuaValue::Boolean(floating));
    lemma_says(actions->Table_0@, "workspace"@, workspace);
}

/// Whether a pattern applies to a text, if there is one.
pub open spec fn applies(p: Option<Pattern>, text: Seq<char>) -> bool {
    p is Some ==> p->0.matches(text)
}

/// A rule is for a window if and only if it is enabled and each pattern that it has matches: that
/// for the program its name, that for the bundle its bundle and that for the title its title.
pub proof fn law_rule_needs_all_patterns(r: Rule, app: Seq<char>, bundle: Seq<char>, title: Seq<char>)
    ensures
        r.is_for(app, bundle, title) <==> {
            &&& r.enabled
            &&& applies(r.app_name, app)
            &&& applies(r.app_bundle, bundle)
            &&& applies(r.title, title)
        },
{
}

/// An exact pattern matches texts that differ from it in nothing but the case of ASCII letters; one
/// that is to be contained matches texts that hold it somewhere when both are in lower case; a
/// regular expression matches where it is found, whatever the case, and nothing if it is none.
pub proof fn law_patterns_match(value: Seq<char>, text: Seq<char>)
    ensures
        (Pattern { value, mode: RuleMatchMode::Exact }).matches(text) <==> ascii_lowered(text)
            == ascii_lowered(value),
        (Pattern { value, mode: RuleMatchMode::Contains }).matches(text) <==> exists|i: int|
            0 <= i && i + unicode_lowercase(value).len() <= unicode_lowercase(text).len()
                && #[trigger] unicode_lowercase(text).subrange(
                i,
                i + unicode_lowercase(value).len(),
            ) == unicode_lowercase(value),
        (Pattern { value, mode: RuleMatchMode::Regex }).matches(text) <==> regex_search(
            value,
            true,
            text,
        ) == Some(true),
{
    let low = unicode_lowercase(text);
    let part = unicode_lowercase(value);
    if has_part(low, part) {
        let i = choose|i: int| #[trigger] holds_at(low, part, i);
        assert(low.subrange(i, i + part.len()) == part);
    }
    if exists|i: int|
        0 <= i && i + part.len() <= low.len() && #[trigger] low.subrange(i, i + part.len())
            == part {
        let i = choose|i: int|
            0 <= i && i + part.len() <= low.len() && #[trigger] low.subrange(i, i + part.len())
                == part;
        assert(holds_at(low, part, i));
    }
}

// --- Workspaces and overlays ---

/// An overlay has the name, place and shares that a script asks for, each share at least a tenth
/// and at most all; what is not asked for is in the middle and seven tenths.
pub proof fn law_overlay_is_as_asked(name: Seq<char>, o: SpecialOptions)
    ensures
        ({
            let r = overlay_asked(name, Some(o));
            &&& r.name == name
            &&& o.position is Some ==> r.position == o.position->0@
            &&& o.position is None ==> r.position == "center"@
            &&& 100 <= r.width <= 1000
            &&& 100 <= r.height <= 1000
            &&& (o.width matches Some(w) && 100 <= w <= 1000) ==> Some(r.width) == o.width
            &&& (o.width matches Some(w) && w < 100) ==> r.width == 100
            &&& (o.width matches Some(w) && w > 1000) ==> r.width == 1000
            &&& (o.height matches Some(h) && 100 <= h <= 1000) ==> Some(r.height) == o.height
            &&& (o.height matches Some(h) && h < 100) ==> r.height == 100
            &&& (o.height matches Some(h) && h > 1000) ==> r.height == 1000
            &&& o.width is None ==> r.width == 700
            &&& o.height is None ==> r.height == 700
        }),
{
}

/// A workspace prefers the monitor and the gaps that a script asks for; a negative gap counts as
/// none.
pub proof fn law_preferences_are_as_asked(o: WorkspaceOptions)
    ensures
        ({
            let r = prefs_asked(Some(o));
            &&& (r.monitor is Some) == (o.monitor is Some)
            &&& o.monitor matches Some(d) ==> r.monitor->0.display_id == d
            &&& (r.gap_inner is Some) == (o.gap_inner is Some)
            &&& (r.gap_outer is Some) == (o.gap_outer is Some)
            &&& o.gap_inner matches Some(g) ==> r.gap_inner == Some(
                if g < 0 {
                    0i64
                } else {
                    g
                },
            )
            &&& o.gap_outer matches Some(g) ==> r.gap_outer == Some(
                if g < 0 {
                    0i64
                } else {
                    g
                },
            )
        }),
{
}

/// Without a script there are ten workspaces, with the numbers from one to ten in order.
pub proof fn law_ten_workspaces_by_default()
    ensures
        default_defs().len() == 10,
        forall|n: int|
            1 <= n <= 10 ==> (#[trigger] default_defs()[n - 1]).id == WsId::Numbered(n as u8),
{
}

/// Of the definitions of a workspace the last managed one holds, and where there is none the last
/// one of the script.
pub proof fn law_managed_definition_wins(managed: Managed, script: Script, id: WsId, k: int)
    ensures
        0 <= k < managed.defs.len() && managed.defs[k].id == id && (forall|j: int|
            k < j < managed.defs.len() ==> (#[trigger] managed.defs[j]).id != id)
            ==> resolved_def(managed, script, id) == managed.defs[k],
        (forall|j: int| 0 <= j < managed.defs.len() ==> (#[trigger] managed.defs[j]).id != id) && 0
            <= k < script.defs.len() && script.defs[k].id == id && (forall|j: int|
            k < j < script.defs.len() ==> (#[trigger] script.defs[j]).id != id) ==> resolved_def(
            managed,
            script,
            id,
        ) == script.defs[k],
{
    let p = defines(id);
    if 0 <= k < managed.defs.len() && managed.defs[k].id == id && (forall|j: int|
        k < j < managed.defs.len() ==> (#[trigger] managed.defs[j]).id != id) {
        assert(is_last_where(managed.defs, p, k));
        lemma_last_where(managed.defs, p, k);
    }
    if (forall|j: int| 0 <= j < managed.defs.len() ==> (#[trigger] managed.defs[j]).id != id) && 0
        <= k < script.defs.len() && script.defs[k].id == id && (forall|j: int|
        k < j < script.defs.len() ==> (#[trigger] script.defs[j]).id != id) {
        assert forall|i: int| !is_last_where(managed.defs, p, i) by {
            if is_last_where(managed.defs, p, i) {
                assert(p(managed.defs[i]));
            }
        }
        assert(is_last_where(script.defs, p, k));
        lemma_last_where(script.defs, p, k);
    }
}

/// Of the overlays of a name the last managed one holds, and where there is none the last one of
/// the script.
pub proof fn law_managed_overlay_wins(managed: Managed, script: Script, name: Seq<char>, k: int)
    ensures
        0 <= k < managed.overlays.len() && managed.overlays[k].name == name && (forall|j: int|
            k < j < managed.overlays.len() ==> (#[trigger] managed.overlays[j]).name != name)
            ==> resolved_overlay(managed, script, name) == Some(managed.overlays[k]),
        (forall|j: int|
            0 <= j < managed.overlays.len() ==> (#[trigger] managed.overlays[j]).name != name) && 0
            <= k < script.overlays.len() && script.overlays[k].name == name && (forall|j: int|
            k < j < script.overlays.len() ==> (#[trigger] script.overlays[j]).name != name)
            ==> resolved_overlay(managed, script, name) == Some(script.overlays[k]),
{
    let p = is_overlay_of(name);
    if 0 <= k < managed.overlays.len() && managed.overlays[k].name == name && (forall|j: int|
        k < j < managed.overlays.len() ==> (#[trigger] managed.overlays[j]).name != name) {
        assert(is_last_where(managed.overlays, p, k));
        lemma_last_where(managed.overlays, p, k);
    }
    if (forall|j: int|
        0 <= j < managed.overlays.len() ==> (#[trigger] managed.overlays[j]).name != name) && 0
        <= k < script.overlays.len() && script.overlays[k].name == name && (forall|j: int|
        k < j < script.overlays.len() ==> (#[trigger] script.overlays[j]).name != name) {
        assert forall|i: int| !is_last_where(managed.overlays, p, i) by {
            if is_last_where(managed.overlays, p, i) {
                assert(p(managed.overlays[i]));
            }
        }
        assert(is_last_where(script.overlays, p, k));
        lemma_last_where(script.overlays, p, k);
    }
}

/// Lists of workspaces have numbers before letters, and letters before special workspaces.
pub proof fn law_numbers_before_letters_before_specials(n: u8, c: char, name: Seq<char>)
    ensures
        id_after(WsId::Lettered(c), WsId::Numbered(n), DefOrder::Kind),
        id_after(WsId::Special(name), WsId::Numbered(n), DefOrder::Kind),
        id_after(WsId::Special(name), WsId::Lettered(c), DefOrder::Kind),
        !id_after(WsId::Numbered(n), WsId::Lettered(c), DefOrder::Kind),
        !id_after(WsId::Numbered(n), WsId::Special(name), DefOrder::Kind),
        !id_after(WsId::Lettered(c), WsId::Special(name), DefOrder::Kind),
{
}

// --- Default bindings ---

/// Whether some bindings bind a key to an action.
pub open spec fn binds_to(binds: Seq<crate::wm::input::Bind>, m: Modifiers, key: Key, a: Act) -> bool {
    exists|k: int|
        0 <= k < binds.len() && (#[trigger] binds[k]).modifiers == m && binds[k].key == key
            && binds[k].action == a
}

proof fn lemma_upto(m: Modifiers, n: int, k: int)
    requires
        1 <= k <= n <= 10,
    ensures
        workspace_binds_upto(m, n).len() == 2 * n,
        workspace_binds_upto(m, n)[2 * k - 2] == workspace_binds(m, k)[0],
        workspace_binds_upto(m, n)[2 * k - 1] == workspace_binds(m, k)[1],
    decreases n,
{
    if n == 1 {
        assert(workspace_binds_upto(m, 0).len() == 0);
    } else {
        lemma_upto(m, n - 1, if k < n {
            k
        } else {
            1
        });
    }
}

/// By default the main modifier with a digit goes to the workspace of that number, and with shift
/// takes the window there; the key for the tenth workspace is zero.
pub proof fn law_digits_are_bound_to_workspaces(m: Modifiers, n: u8)
    requires
        1 <= n <= 10,
    ensures
        ({
            let key = match n {
                1 => Key::Num1,
                2 => Key::Num2,
                3 => Key::Num3,
                4 => Key::Num4,
                5 => Key::Num5,
                6 => Key::Num6,
                7 => Key::Num7,
                8 => Key::Num8,
                9 => Key::Num9,
                _ => Key::Num0,
            };
            &&& binds_to(
                default_binds(m),
                m,
                key,
                Act::Workspace(WorkspaceTarget::Numbered(n)),
            )
            &&& binds_to(
                default_binds(m),
                (Modifiers { bits: m.bits | SHIFT_BIT }),
                key,
                Act::MoveToWorkspace(WorkspaceTarget::Numbered(n)),
            )
        }),
{
    lemma_upto(m, 10, n as int);
    let first = basic_binds(m).len() as int;
    let all = default_binds(m);
    assert(all[first + 2 * n - 2] == workspace_binds(m, n as int)[0]);
    assert(all[first + 2 * n - 1] == workspace_binds(m, n as int)[1]);
}

// --- Keys ---

/// The keys of the letters in the order of the alphabet.
pub open spec fn letter_keys() -> Seq<Key> {
    seq![
        Key::A,
        Key::B,
        Key::C,
        Key::D,
        Key::E,
        Key::F,
        Key::G,
        Key::H,
        Key::I,
        Key::J,
        Key::K,
        Key::L,
        Key::M,
        Key::N,
        Key::O,
        Key::P,
        Key::Q,
        Key::R,
        Key::S,
        Key::T,
        Key::U,
        Key::V,
        Key::W,
        Key::X,
        Key::Y,
        Key::Z,
    ]
}

/// The keys of the digits from zero on.
pub open spec fn digit_keys() -> Seq<Key> {
    seq![
        Key::Num0,
        Key::Num1,
        Key::Num2,
        Key::Num3,
        Key::Num4,
        Key::Num5,
        Key::Num6,
        Key::Num7,
        Key::Num8,
        Key::Num9,
    ]
}

/// A small letter names the key of that letter and a digit the key of that digit, and so these keys
/// are written.
pub proof fn law_letters_and_digits_name_keys(c: char)
    ensures
        97 <= c as u32 <= 122 ==> ({
            let key = letter_keys()[c as u32 - 97];
            key_named(seq![c]) == Some(key) && name_of_key(key) == seq![c]
        }),
        48 <= c as u32 <= 57 ==> ({
            let key = digit_keys()[c as u32 - 48];
            key_named(seq![c]) == Some(key) && name_of_key(key) == seq![c]
        }),
{
    let letters = letter_keys();
    let digits = digit_keys();
    if c == 'a' {
        assert(letters[0] == Key::A);
    }
    if c == 'b' {
        assert(letters[1] == Key::B);
    }
    if c == 'c' {
        assert(letters[2] == Key::C);
    }
    if c == 'd' {
        assert(letters[3] == Key::D);
    }
    if c == 'e' {
        assert(letters[4] == Key::E);
    }
    if c == 'f' {
        assert(letters[5] == Key::F);
    }
    if c == 'g' {
        assert(letters[6] == Key::G);
    }
    if c == 'h' {
        assert(letters[7] == Key::H);
    }
    if c == 'i' {
        assert(letters[8] == Key::I);
    }
    if c == 'j' {
        assert(letters[9] == Key::J);
    }
    if c == 'k' {
        assert(letters[10] == Key::K);
    }
    if c == 'l' {
        assert(letters[11] == Key::L);
    }
    if c == 'm' {
        assert(letters[12] == Key::M);
    }
    if c == 'n' {
        assert(letters[13] == Key::N);
    }
    if c == 'o' {
        assert(letters[14] == Key::O);
    }
    if c == 'p' {
        assert(letters[15] == Key::P);
    }
    if c == 'q' {
        assert(letters[16] == Key::Q);
    }
    if c == 'r' {
        assert(letters[17] == Key::R);
    }
    if c == 's' {
        assert(letters[18] == Key::S);
    }
    if c == 't' {
        assert(letters[19] == Key::T);
    }
    if c == 'u' {
        assert(letters[20] == Key::U);
    }
    if c == 'v' {
        assert(letters[21] == Key::V);
    }
    if c == 'w' {
        assert(letters[22] == Key::W);
    }
    if c == 'x' {
        assert(letters[23] == Key::X);
    }
    if c == 'y' {
        assert(letters[24] == Key::Y);
    }
    if c == 'z' {
        assert(letters[25] == Key::Z);
    }
    if c == '0' {
        assert(digits[0] == Key::Num0);
    }
    if c == '1' {
        assert(digits[1] == Key::Num1);
    }
    if c == '2' {
        assert(digits[2] == Key::Num2);
    }
    if c == '3' {
        assert(digits[3] == Key::Num3);
    }
    if c == '4' {
        assert(digits[4] == Key::Num4);
    }
    if c == '5' {
        assert(digits[5] == Key::Num5);
    }
    if c == '6' {
        assert(digits[6] == Key::Num6);
    }
    if c == '7' {
        assert(digits[7] == Key::Num7);
    }
    if c == '8' {
        assert(digits[8] == Key::Num8);
    }
    if c == '9' {
        assert(digits[9] == Key::Num9);
    }
}

// --- Values ---

/// A workspace is asked for by a number above zero, of which the lowest byte counts, or by a text
/// that names it, and by nothing else.
pub proof fn law_workspace_is_asked_for(v: LuaValue)
    ensures
        match v {
            LuaValue::Integer(n) => {
                &&& 1 <= n <= 255 ==> workspace_asked(v) == Some(WsId::Numbered(n as u8))
                &&& n <= 0 ==> workspace_asked(v) is None
            },
            LuaValue::Number(n) => {
                &&& n.is_positive ==> workspace_asked(v) == Some(WsId::Numbered(n.byte))
                &&& !n.is_positive ==> workspace_asked(v) is None
            },
            LuaValue::Text(t) => workspace_asked(v) == id_named(t.text@),
            LuaValue::Nil => workspace_asked(v) is None,
            LuaValue::Boolean(_) => workspace_asked(v) is None,
            LuaValue::Table(_) => workspace_asked(v) is None,
            _ => true,
        },
{
}

/// The program of a command is its first word.
pub proof fn law_program_is_first_word(word: Seq<char>, rest: Seq<char>)
    requires
        word.len() > 0,
        forall|i: int| 0 <= i < word.len() ==> !is_space(#[trigger] word[i]),
        rest.len() > 0 ==> is_space(rest[0]),
    ensures
        program_of(word + rest) == word,
        program_of(seq![' '] + word + rest) == word,
{
    lemma_leading_word(word, rest);
    let s = word + rest;
    assert(s[0] == word[0]);
    let spaced = seq![' '] + word + rest;
    assert(spaced.drop_first() =~= s);
    assert(trim_start(s) == s);
    assert(trim_start(spaced) == trim_start(s));
}

proof fn lemma_leading_word(word: Seq<char>, rest: Seq<char>)
    requires
        forall|i: int| 0 <= i < word.len() ==> !is_space(#[trigger] word[i]),
        rest.len() > 0 ==> is_space(rest[0]),
    ensures
        leading_word(word + rest) == word,
    decreases word.len(),
{
    let s = word + rest;
    if word.len() == 0 {
        assert(s =~= rest);
    } else {
        assert(s[0] == word[0]);
        assert(s.drop_first() =~= word.drop_first() + rest);
        lemma_leading_word(word.drop_first(), rest);
        assert(seq![word[0]] + word.drop_first() =~= word);
    }
}

/// What a setting gets from a text is that text, from a flag its word, and from a number its digits.
pub proof fn law_setting_gets_text(v: LuaValue, description: Seq<char>)
    ensures
        match v {
            LuaValue::Text(t) => setting_text(v, description) == t.text@,
            LuaValue::Number(n) => setting_text(v, description) == n.text@,
            LuaValue::Integer(i) => i >= 0 ==> setting_text(v, description) == decimal(i as nat),
            LuaValue::Boolean(b) => setting_text(v, description) == if b {
                "true"@
            } else {
                "false"@
            },
            _ => true,
        },
{
}

// --- Where rows come from ---

/// What another list lacks are exactly the values that are not in it.
pub proof fn law_outer_values_are_left<T>(s: Seq<T>, owned: Seq<T>, x: T)
    ensures
        left_out(s, owned).contains(x) <==> s.contains(x) && !owned.contains(x),
    decreases s.len(),
{
    if s.len() > 0 {
        let rest = s.drop_last();
        law_outer_values_are_left(rest, owned, x);
        let before = left_out(rest, owned);
        assert(s =~= rest.push(s.last()));
        assert(s.contains(x) <==> rest.contains(x) || s.last() == x) by {
            if s.contains(x) {
                let k = choose|k: int| 0 <= k < s.len() && s[k] == x;
                if k < rest.len() {
                    assert(rest[k] == x);
                }
            }
            if rest.contains(x) {
                let k = choose|k: int| 0 <= k < rest.len() && rest[k] == x;
                assert(s[k] == x);
            }
            if s.last() == x {
                assert(s[s.len() - 1] == x);
            }
        }
        if !owned.contains(s.last()) {
            let now = before.push(s.last());
            assert(now.contains(x) <==> before.contains(x) || s.last() == x) by {
                if now.contains(x) {
                    let k = choose|k: int| 0 <= k < now.len() && now[k] == x;
                    if k < before.len() {
                        assert(before[k] == x);
                    }
                }
                if before.contains(x) {
                    let k = choose|k: int| 0 <= k < before.len() && before[k] == x;
                    assert(now[k] == x);
                }
                if s.last() == x {
                    assert(now[before.len() as int] == x);
                }
            }
        }
    }
}

/// A workspace that the managed part defines is managed; one that neither part defines is there by
/// default if it has a number from 1 to 10, and a lettered one comes from the script.
pub proof fn law_workspace_has_source(managed: Managed, script: Script, def: WsDef, k: int)
    ensures
        0 <= k < managed.defs.len() && managed.defs[k].id == def.id ==> workspace_source(
            managed,
            script,
            def,
        ) == ConfigSource::Managed,
        (forall|j: int|
            0 <= j < managed.defs.len() ==> (#[trigger] managed.defs[j]).id != def.id) ==> ({
            let source = workspace_source(managed, script, def);
            &&& def.id is Lettered ==> source == ConfigSource::Lua
            &&& (def.id matches WsId::Numbered(n) ==> {
                &&& (forall|j: int|
                    0 <= j < script.defs.len() ==> (#[trigger] script.defs[j]).id != def.id)
                    ==> source == if 1 <= n <= 10 {
                    ConfigSource::Default
                } else {
                    ConfigSource::Lua
                }
                &&& source != ConfigSource::Managed
            })
        }),
{
    lemma_last_found(managed.defs, defines(def.id));
    lemma_last_found(script.defs, defines(def.id));
    if 0 <= k < managed.defs.len() && managed.defs[k].id == def.id {
        assert(defines(def.id)(managed.defs[k]));
    }
}

proof fn lemma_last_found(defs: Seq<WsDef>, p: spec_fn(WsDef) -> bool)
    ensures
        match last_where(defs, p) {
            Some(i) => is_last_where(defs, p, i),
            None => forall|j: int| 0 <= j < defs.len() ==> !p(#[trigger] defs[j]),
        },
    decreases defs.len(),
{
    if defs.len() > 0 {
        let rest = defs.drop_last();
        lemma_last_found(rest, p);
        lemma_last_where_push(rest, p, defs.last());
        assert(rest.push(defs.last()) =~= defs);
        match last_where(defs, p) {
            Some(i) => {
                let m = choose|m: int| is_last_where(defs, p, m);
                assert(is_last_where(defs, p, m));
            },
            None => {
                assert forall|j: int| 0 <= j < defs.len() implies !p(#[trigger] defs[j]) by {
                    if j < rest.len() {
                        assert(rest[j] == defs[j]);
                    }
                }
            },
        }
    }
}

/// A rule that gives its workspace as a number above zero sends windows to the workspace of that
/// number; one that gives another number is refused.
pub proof fn law_rule_workspace_by_number(conditions: LuaValue, actions: LuaValue, n: i64)
    requires
        conditions is Table,
        actions is Table,
        says(actions->Table_0@, "workspace"@, LuaValue::Integer(n)),
    ensures
        n > 0 ==> (rule_of_args(seq![conditions, actions]) matches Ok(r) ==> r.workspace == Some(
            decimal(n as nat),
        )),
        n <= 0 ==> rule_of_args(seq![conditions, actions]) is Err,
{
    lemma_says(actions->Table_0@, "workspace"@, LuaValue::Integer(n));
}

} // verus!
