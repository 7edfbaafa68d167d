//! Workspaces: their names, preferences, windows and focus.
use vstd::prelude::*;
use crate::seqs::{
    first_where, is_first_where, lemma_first_where, lemma_first_where_found, lemma_first_where_none,
    remove_all_u32, without,
};
use crate::text::{
    after_prefix, ascii_lowered, ascii_upper, char_is_ascii_letter, char_to_ascii_upper, chars_of,
    copy, decimal, is_ascii_lower, is_ascii_upper, is_digit, lemma_decimal_trimmed,
    lemma_trim_nothing, lemma_trim_twice, number, parse_number, parsed_number, same, starts_with,
    strip_prefix, to_ascii_lowercase, trim, trimmed,
};
use crate::wm::adjacency::{find_rect, rect_of};
use crate::wm::geometry::Rect;
use crate::wm::tree::{Node, Tree};
use crate::wm::window::WindowId;

verus! {

/// A regular workspace.
#[derive(Clone, Copy, Debug, Hash, PartialEq, Eq, Structural)]
pub enum WorkspaceTarget {
    Numbered(u8),
    Lettered(char),
}

/// The regular workspace that a text names: a number from 1 to 255 or one
/// letter, with white space around it or not.
pub open spec fn target_named(s: Seq<char>) -> Option<WorkspaceTarget> {
    let t = trimmed(s);
    if parsed_number(t, 255) is Some && parsed_number(t, 255)->0 > 0 {
        Some(WorkspaceTarget::Numbered(parsed_number(t, 255)->0 as u8))
    } else if t.len() == 1 && (is_ascii_upper(t[0]) || is_ascii_lower(t[0])) {
        Some(WorkspaceTarget::Lettered(ascii_upper(t[0])))
    } else {
        None
    }
}

impl WorkspaceTarget {
    /// How the target is written.
    pub open spec fn text(self) -> Seq<char> {
        match self {
            WorkspaceTarget::Numbered(n) => decimal(n as nat),
            WorkspaceTarget::Lettered(c) => seq![c],
        }
    }

    /// A target that `parse` can give: a positive number or a capital letter.
    pub open spec fn is_regular(self) -> bool {
        match self {
            WorkspaceTarget::Numbered(n) => n > 0,
            WorkspaceTarget::Lettered(c) => is_ascii_upper(c),
        }
    }

    /// The name of the workspace.
    pub open spec fn id(self) -> WsId {
        match self {
            WorkspaceTarget::Numbered(n) => WsId::Numbered(n),
            WorkspaceTarget::Lettered(c) => WsId::Lettered(c),
        }
    }

    pub fn parse(s: &str) -> (r: Option<Self>)
        ensures
            r == target_named(s@),
    {
        let t = trim(s);
        if let Some(n) = parse_number(t.as_str(), 255) {
            if n > 0 {
                return Some(WorkspaceTarget::Numbered(n as u8));
            }
        }
        let v = chars_of(t.as_str());
        if v.len() == 1 && char_is_ascii_letter(v[0]) {
            Some(WorkspaceTarget::Lettered(char_to_ascii_upper(v[0])))
        } else {
            None
        }
    }

    pub fn to_workspace_id(&self) -> (r: WorkspaceId)
        ensures
            r@ == self.id(),
    {
        match self {
            WorkspaceTarget::Numbered(n) => WorkspaceId::Numbered(*n),
            WorkspaceTarget::Lettered(c) => WorkspaceId::Lettered(*c),
        }
    }

    pub fn to_string(&self) -> (r: String)
        ensures
            r@ == self.text(),
    {
        match self {
            WorkspaceTarget::Numbered(n) => number(*n as u64),
            WorkspaceTarget::Lettered(c) => {
                let mut s = String::new();
                s.push(*c);
                assert(s@ =~= self.text());
                s
            },
        }
    }
}

/// A written target is read back.
pub proof fn law_target_round_trip(t: WorkspaceTarget)
    requires
        t.is_regular(),
    ensures
        target_named(t.text()) == Some(t),
{
    match t {
        WorkspaceTarget::Numbered(n) => {
            lemma_decimal_trimmed(n as nat);
            crate::text::law_number_round_trip(n as nat, 255);
        },
        WorkspaceTarget::Lettered(c) => {
            let s = t.text();
            lemma_trim_nothing(s);
            assert(!is_digit(s[0]));
            assert(s[0] != '+');
            assert(parsed_number(s, 255) is None);
        },
    }
}

/// The name of a workspace: numbered, lettered, or special.
#[derive(Debug, Hash, PartialEq, Eq)]
pub enum WorkspaceId {
    Numbered(u8),
    Lettered(char),
    Special(String),
}

/// The name of a workspace as a mathematical value.
pub enum WsId {
    Numbered(u8),
    Lettered(char),
    Special(Seq<char>),
}

impl View for WorkspaceId {
    type V = WsId;

    open spec fn view(&self) -> WsId {
        match self {
            WorkspaceId::Numbered(n) => WsId::Numbered(*n),
            WorkspaceId::Lettered(c) => WsId::Lettered(*c),
            WorkspaceId::Special(name) => WsId::Special(name@),
        }
    }
}

impl Clone for WorkspaceId {
    fn clone(&self) -> (r: Self)
        ensures
            r@ == self@,
    {
        match self {
            WorkspaceId::Numbered(n) => WorkspaceId::Numbered(*n),
            WorkspaceId::Lettered(c) => WorkspaceId::Lettered(*c),
            WorkspaceId::Special(name) => WorkspaceId::Special(copy(name.as_str())),
        }
    }
}

impl WsId {
    /// How the name is written.
    pub open spec fn text(self) -> Seq<char> {
        match self {
            WsId::Numbered(n) => decimal(n as nat),
            WsId::Lettered(c) => seq![c],
            WsId::Special(name) => "special:"@ + name,
        }
    }

    /// The regular workspace of this name.
    pub open spec fn target(self) -> Option<WorkspaceTarget> {
        match self {
            WsId::Numbered(n) => Some(WorkspaceTarget::Numbered(n)),
            WsId::Lettered(c) => Some(WorkspaceTarget::Lettered(c)),
            WsId::Special(_) => None,
        }
    }

    pub open spec fn kind(self) -> WorkspaceKind {
        match self {
            WsId::Numbered(_) => WorkspaceKind::Numbered,
            WsId::Lettered(_) => WorkspaceKind::Lettered,
            WsId::Special(_) => WorkspaceKind::Special,
        }
    }

    /// A name that `parse` can give.
    pub open spec fn is_proper(self) -> bool {
        match self {
            WsId::Special(name) => name.len() > 0 && trimmed(name) == name,
            _ => self.target()->0.is_regular(),
        }
    }
}

/// The workspace that a text names.
pub open spec fn id_named(s: Seq<char>) -> Option<WsId> {
    let t = trimmed(s);
    let name = trimmed(after_prefix(t, "special:"@));
    if starts_with(t, "special:"@) && name.len() > 0 {
        Some(WsId::Special(name))
    } else {
        match target_named(t) {
            Some(target) => Some(target.id()),
            None => None,
        }
    }
}

impl WorkspaceId {
    pub fn parse(s: &str) -> (r: Option<Self>)
        ensures
            match r {
                Some(id) => id_named(s@) == Some(id@),
                None => id_named(s@) is None,
            },
    {
        let t = trim(s);
        if let Some(rest) = strip_prefix(t.as_str(), "special:") {
            let name = trim(rest.as_str());
            if !name.as_str().is_empty() {
                return Some(WorkspaceId::Special(name));
            }
        }
        match WorkspaceTarget::parse(t.as_str()) {
            Some(target) => Some(target.to_workspace_id()),
            None => None,
        }
    }

    pub fn as_regular_target(&self) -> (r: Option<WorkspaceTarget>)
        ensures
            r == self@.target(),
    {
        match self {
            WorkspaceId::Numbered(n) => Some(WorkspaceTarget::Numbered(*n)),
            WorkspaceId::Lettered(c) => Some(WorkspaceTarget::Lettered(*c)),
            WorkspaceId::Special(_) => None,
        }
    }

    pub fn to_string(&self) -> (r: String)
        ensures
            r@ == self@.text(),
    {
        match self {
            WorkspaceId::Numbered(n) => number(*n as u64),
            WorkspaceId::Lettered(c) => {
                let mut s = String::new();
                s.push(*c);
                assert(s@ =~= self@.text());
                s
            },
            WorkspaceId::Special(name) => {
                let mut s = copy("special:");
                s.push_str(name.as_str());
                s
            },
        }
    }

    /// Whether two names are the same.
    pub fn is(&self, other: &WorkspaceId) -> (r: bool)
        ensures
            r == (self@ == other@),
    {
        match (self, other) {
            (WorkspaceId::Numbered(a), WorkspaceId::Numbered(b)) => *a == *b,
            (WorkspaceId::Lettered(a), WorkspaceId::Lettered(b)) => *a == *b,
            (WorkspaceId::Special(a), WorkspaceId::Special(b)) => same(a.as_str(), b.as_str()),
            _ => false,
        }
    }

    pub fn kind(&self) -> (r: WorkspaceKind)
        ensures
            r == self@.kind(),
    {
        match self {
            WorkspaceId::Numbered(_) => WorkspaceKind::Numbered,
            WorkspaceId::Lettered(_) => WorkspaceKind::Lettered,
            WorkspaceId::Special(_) => WorkspaceKind::Special,
        }
    }
}

/// A written name is read back.
pub proof fn law_id_round_trip(id: WsId)
    requires
        id.is_proper(),
    ensures
        id_named(id.text()) == Some(id),
{
    reveal_strlit("special:");
    match id {
        WsId::Special(name) => {
            let s = id.text();
            crate::text::lemma_trimmed_ends(name);
            assert(s[0] == 's');
            assert(s.last() == name.last());
            lemma_trim_nothing(s);
            assert(s.subrange(0, 8) =~= "special:"@);
            assert(after_prefix(s, "special:"@) =~= name);
        },
        _ => {
            let t = id.target()->0;
            law_target_round_trip(t);
            lemma_trim_twice(id.text());
            match t {
                WorkspaceTarget::Numbered(n) => {
                    lemma_decimal_trimmed(n as nat);
                    assert(is_digit(id.text()[0]));
                    if starts_with(id.text(), "special:"@) {
                        assert(id.text().subrange(0, 8)[0] == 's');
                    }
                },
                WorkspaceTarget::Lettered(c) => {
                    lemma_trim_nothing(id.text());
                },
            }
        },
    }
}

#[derive(Clone, Copy, Debug, PartialEq, Eq, Structural)]
pub enum WorkspaceKind {
    Numbered,
    Lettered,
    Special,
}

/// How a workspace arranges its windows.
#[derive(Clone, Copy, Debug, PartialEq, Eq, Structural)]
pub enum WorkspaceLayout {
    Bsp,
}

impl WorkspaceLayout {
    pub fn parse(s: &str) -> (r: Option<Self>)
        ensures
            r == (if ascii_lowered(trimmed(s@)) == "bsp"@ {
                Some(WorkspaceLayout::Bsp)
            } else {
                None
            }),
    {
        let lower = to_ascii_lowercase(trim(s).as_str());
        if same(lower.as_str(), "bsp") {
            Some(WorkspaceLayout::Bsp)
        } else {
            None
        }
    }

    pub open spec fn name(self) -> Seq<char> {
        match self {
            WorkspaceLayout::Bsp => "bsp"@,
        }
    }

    pub fn as_str(&self) -> (r: &'static str)
        ensures
            r@ == self.name(),
    {
        match self {
            WorkspaceLayout::Bsp => "bsp",
        }
    }
}

/// The display that a workspace prefers.
#[derive(Clone, Copy, Debug, PartialEq, Eq, Structural)]
pub struct MonitorAssignment {
    pub display_id: u32,
}

/// What a user asked for a workspace.
#[derive(Clone, Copy, Debug, PartialEq, Eq, Structural)]
pub struct WorkspacePrefs {
    pub monitor: Option<MonitorAssignment>,
    pub default_layout: WorkspaceLayout,
    pub gap_inner: Option<i64>,
    pub gap_outer: Option<i64>,
}

impl WorkspacePrefs {
    /// No preference.
    pub open spec fn none() -> WorkspacePrefs {
        WorkspacePrefs {
            monitor: None,
            default_layout: WorkspaceLayout::Bsp,
            gap_inner: None,
            gap_outer: None,
        }
    }
}

impl Default for WorkspacePrefs {
    fn default() -> (r: Self)
        ensures
            r == WorkspacePrefs::none(),
    {
        WorkspacePrefs {
            monitor: None,
            default_layout: WorkspaceLayout::Bsp,
            gap_inner: None,
            gap_outer: None,
        }
    }
}

/// A workspace as the configuration defines it.
#[derive(Debug, PartialEq)]
pub struct WorkspaceDefinition {
    pub id: WorkspaceId,
    pub kind: WorkspaceKind,
    pub prefs: WorkspacePrefs,
}

/// A definition as a mathematical value.
pub struct WsDef {
    pub id: WsId,
    pub kind: WorkspaceKind,
    pub prefs: WorkspacePrefs,
}

impl View for WorkspaceDefinition {
    type V = WsDef;

    open spec fn view(&self) -> WsDef {
        WsDef { id: self.id@, kind: self.kind, prefs: self.prefs }
    }
}

impl Clone for WorkspaceDefinition {
    fn clone(&self) -> (r: Self)
        ensures
            r@ == self@,
    {
        WorkspaceDefinition { id: self.id.clone(), kind: self.kind, prefs: self.prefs }
    }
}

/// A definition without preferences.
pub open spec fn plain_def(id: WsId) -> WsDef {
    WsDef { id, kind: id.kind(), prefs: WorkspacePrefs::none() }
}

impl WorkspaceDefinition {
    pub fn new(id: WorkspaceId) -> (r: Self)
        ensures
            r@ == plain_def(id@),
    {
        let kind = id.kind();
        WorkspaceDefinition { id, kind, prefs: WorkspacePrefs::default() }
    }

    /// Whether two definitions are the same.
    pub fn is(&self, other: &WorkspaceDefinition) -> (r: bool)
        ensures
            r == (self@ == other@),
    {
        self.id.is(&other.id) && self.kind == other.kind && self.prefs == other.prefs
    }
}

/// A window with a rectangle of its own, outside the tree.
#[derive(Clone, Copy, Debug, PartialEq, Eq, Structural)]
pub struct FloatingWindow {
    pub id: WindowId,
    pub geometry: Rect,
}

/// A workspace with its tiled and floating windows and its focus.
#[derive(Debug)]
pub struct Workspace {
    pub id: WorkspaceId,
    pub tree: Node,
    pub floating: Vec<FloatingWindow>,
    pub focused: Option<WindowId>,
    /// Windows by their last focus, the most recent one last.
    pub focus_history: Vec<WindowId>,
    /// Index of the monitor that showed the workspace last.
    pub last_monitor: Option<usize>,
    /// Display that showed the workspace last, kept when it is detached.
    pub last_display_id: Option<u32>,
    /// Whether some monitor shows the workspace.
    pub visible: bool,
}

/// A workspace as a mathematical value.
pub struct Ws {
    pub id: WsId,
    pub tree: Tree,
    pub floating: Seq<FloatingWindow>,
    pub focused: Option<WindowId>,
    pub focus_history: Seq<WindowId>,
    pub last_monitor: Option<usize>,
    pub last_display_id: Option<u32>,
    pub visible: bool,
}

impl View for Workspace {
    type V = Ws;

    open spec fn view(&self) -> Ws {
        Ws {
            id: self.id@,
            tree: self.tree@,
            floating: self.floating@,
            focused: self.focused,
            focus_history: self.focus_history@,
            last_monitor: self.last_monitor,
            last_display_id: self.last_display_id,
            visible: self.visible,
        }
    }
}

/// Tells the floating entry of a window.
pub open spec fn is_float_of(w: WindowId) -> spec_fn(FloatingWindow) -> bool {
    |f: FloatingWindow| f.id == w
}

/// Tells the floating entries of other windows.
pub open spec fn is_float_of_other(w: WindowId) -> spec_fn(FloatingWindow) -> bool {
    |f: FloatingWindow| f.id != w
}

pub open spec fn float_ids(floating: Seq<FloatingWindow>) -> Seq<WindowId> {
    Seq::new(floating.len(), |i: int| floating[i].id)
}

/// The last of a history, if there is one.
pub open spec fn last_of(history: Seq<WindowId>) -> Option<WindowId> {
    if history.len() > 0 {
        Some(history.last())
    } else {
        None
    }
}

impl Ws {
    pub open spec fn fresh(id: WsId) -> Ws {
        Ws {
            id,
            tree: Tree::empty(),
            floating: seq![],
            focused: None,
            focus_history: seq![],
            last_monitor: None,
            last_display_id: None,
            visible: false,
        }
    }

    pub open spec fn has_no_windows(self) -> bool {
        self.tree == Tree::empty() && self.floating.len() == 0
    }

    /// The tiled windows, then the floating ones.
    pub open spec fn window_ids(self) -> Seq<WindowId> {
        self.tree.windows() + float_ids(self.floating)
    }

    pub open spec fn floats(self, w: WindowId) -> bool {
        float_ids(self.floating).contains(w)
    }

    pub open spec fn holds(self, w: WindowId) -> bool {
        self.tree.windows().contains(w) || self.floats(w)
    }

    /// `w` has the focus and is the most recent one in the history.
    pub open spec fn focus_recorded(self, w: WindowId) -> Ws {
        Ws {
            focus_history: without(self.focus_history, w).push(w),
            focused: Some(w),
            ..self
        }
    }

    /// The floating window `w` comes on top of the others.
    pub open spec fn raised(self, w: WindowId) -> Ws {
        match first_where(self.floating, is_float_of(w)) {
            Some(i) => Ws { floating: self.floating.remove(i).push(self.floating[i]), ..self },
            None => self,
        }
    }

    /// The most recent focus is forgotten and the one before it takes over.
    pub open spec fn focus_popped(self) -> Ws {
        let rest = if self.focus_history.len() > 0 {
            self.focus_history.drop_last()
        } else {
            self.focus_history
        };
        Ws { focus_history: rest, focused: last_of(rest), ..self }
    }

    /// `w` changes between tiled and floating. It floats where it was tiled.
    pub open spec fn float_toggled(self, w: WindowId, screen: Rect) -> Ws {
        match first_where(self.floating, is_float_of(w)) {
            Some(i) => Ws {
                floating: self.floating.remove(i),
                tree: self.tree.inserted(w, self.focused, screen),
                ..self
            },
            None => if self.tree.windows().contains(w) {
                let geometry = match rect_of(self.tree.geometries(screen, 0, 0, true), w) {
                    Some(r) => r,
                    None => Rect { x: 100_000, y: 100_000, width: 800_000, height: 600_000 },
                };
                Ws {
                    tree: self.tree.removed(w),
                    floating: self.floating.push(FloatingWindow { id: w, geometry }),
                    ..self
                }
            } else {
                self
            },
        }
    }

    /// The tiled window `w` floats in a rectangle.
    pub open spec fn floated(self, w: WindowId, geometry: Rect) -> Ws {
        Ws {
            tree: self.tree.removed(w),
            floating: self.floating.push(FloatingWindow { id: w, geometry }),
            ..self
        }
    }

    /// `w` leaves the workspace; the window that had the focus before it, or
    /// else the first tiled one, takes its focus.
    pub open spec fn taken(self, w: WindowId) -> Ws {
        let history = without(self.focus_history, w);
        let tree = if self.floats(w) { self.tree } else { self.tree.removed(w) };
        Ws {
            floating: self.floating.filter(is_float_of_other(w)),
            tree,
            focus_history: history,
            focused: if self.focused == Some(w) {
                match last_of(history) {
                    Some(x) => Some(x),
                    None => tree.first(),
                }
            } else {
                self.focused
            },
            ..self
        }
    }

    /// `w` enters the workspace, floating in a rectangle or tiled next to the
    /// focused window, and takes the focus.
    pub open spec fn placed(self, w: WindowId, float: Option<Rect>, screen: Rect) -> Ws {
        match float {
            Some(geometry) => Ws {
                floating: self.floating.push(FloatingWindow { id: w, geometry }),
                ..self
            },
            None => Ws { tree: self.tree.inserted(w, self.focused, screen), ..self },
        }.focus_recorded(w)
    }

    /// `w` is gone: the window that had the focus before takes over.
    pub open spec fn closed(self, w: WindowId) -> Ws {
        let gone = Ws {
            floating: self.floating.filter(is_float_of_other(w)),
            tree: self.tree.removed(w),
            ..self
        };
        if self.focused == Some(w) {
            gone.focus_popped()
        } else {
            gone
        }
    }
}

impl Workspace {
    pub fn new(id: WorkspaceId) -> (r: Self)
        ensures
            r@ == Ws::fresh(id@),
    {
        let r = Workspace {
            id,
            tree: Node::empty(),
            floating: Vec::new(),
            focused: None,
            focus_history: Vec::new(),
            last_monitor: None,
            last_display_id: None,
            visible: false,
        };
        assert(r@.floating =~= seq![]);
        assert(r@.focus_history =~= seq![]);
        r
    }

    pub fn is_empty(&self) -> (r: bool)
        ensures
            r == self@.has_no_windows(),
    {
        self.tree.is_empty() && self.floating.is_empty()
    }

    /// All windows, the tiled ones first.
    pub fn all_window_ids(&self) -> (r: Vec<WindowId>)
        ensures
            r@ == self@.window_ids(),
    {
        let mut ids = self.tree.windows();
        let mut i: usize = 0;
        while i < self.floating.len()
            invariant
                i <= self.floating@.len(),
                ids@ == self.tree@.windows() + float_ids(self.floating@.take(i as int)),
            decreases self.floating.len() - i,
        {
            ids.push(self.floating[i].id);
            i = i + 1;
            assert(ids@ =~= self.tree@.windows() + float_ids(self.floating@.take(i as int)));
        }
        assert(self.floating@.take(self.floating@.len() as int) =~= self.floating@);
        ids
    }

    fn float_index(&self, id: WindowId) -> (r: Option<usize>)
        ensures
            match r {
                Some(i) => first_where(self.floating@, is_float_of(id)) == Some(i as int)
                    && is_first_where(self.floating@, is_float_of(id), i as int) && self@.floats(id),
                None => first_where(self.floating@, is_float_of(id)) is None && !self@.floats(id),
            },
    {
        let ghost p = is_float_of(id);
        let mut i: usize = 0;
        while i < self.floating.len()
            invariant
                p == is_float_of(id),
                i <= self.floating@.len(),
                forall|j: int| 0 <= j < i ==> !p(#[trigger] self.floating@[j]),
            decreases self.floating.len() - i,
        {
            if self.floating[i].id == id {
                proof {
                    lemma_first_where(self.floating@, p, i as int);
                    assert(float_ids(self.floating@)[i as int] == id);
                }
                return Some(i);
            }
            i = i + 1;
        }
        proof {
            lemma_first_where_none(self.floating@, p);
            if self@.floats(id) {
                let j = choose|j: int|
                    0 <= j < self.floating@.len() && float_ids(self.floating@)[j] == id;
                assert(p(self.floating@[j]));
            }
        }
        None
    }

    pub fn is_floating(&self, id: WindowId) -> (r: bool)
        ensures
            r == self@.floats(id),
    {
        self.float_index(id).is_some()
    }

    pub fn holds(&self, id: WindowId) -> (r: bool)
        ensures
            r == self@.holds(id),
    {
        self.tree.contains(id) || self.is_floating(id)
    }

    /// Changes a window between tiled and floating; says whether it is here.
    pub fn toggle_float(&mut self, id: WindowId, screen_rect: Rect) -> (r: bool)
        ensures
            final(self)@ == old(self)@.float_toggled(id, screen_rect),
            r == old(self)@.holds(id),
    {
        match self.float_index(id) {
            Some(idx) => {
                let _ = self.floating.remove(idx);
                self.tree.insert_with_rect(id, self.focused, screen_rect);
                true
            },
            None => {
                if self.tree.contains(id) {
                    let geoms = self.tree.calculate_geometries(screen_rect);
                    let geometry: Rect = match find_rect(&geoms, id) {
                        Some(r) => r,
                        None => Rect { x: 100_000, y: 100_000, width: 800_000, height: 600_000 },
                    };
                    let _ = self.tree.remove(id);
                    self.floating.push(FloatingWindow { id, geometry });
                    true
                } else {
                    false
                }
            },
        }
    }

    /// Lets a tiled window float in a rectangle.
    pub fn float_window(&mut self, id: WindowId, geometry: Rect)
        ensures
            final(self)@ == old(self)@.floated(id, geometry),
    {
        let _ = self.tree.remove(id);
        self.floating.push(FloatingWindow { id, geometry });
    }

    /// Gives a window the focus.
    pub fn record_focus(&mut self, window_id: WindowId)
        ensures
            final(self)@ == old(self)@.focus_recorded(window_id),
    {
        let mut history = remove_all_u32(&self.focus_history, window_id);
        history.push(window_id);
        self.focus_history = history;
        self.focused = Some(window_id);
    }

    /// Puts a floating window on top; says whether it floats here.
    pub fn raise_floating(&mut self, id: WindowId) -> (r: bool)
        ensures
            final(self)@ == old(self)@.raised(id),
            r == old(self)@.floats(id),
    {
        match self.float_index(id) {
            Some(idx) => {
                let floating = self.floating.remove(idx);
                self.floating.push(floating);
                true
            },
            None => false,
        }
    }

    /// Forgets the most recent focus and returns the window that has it now.
    pub fn pop_focus(&mut self) -> (r: Option<WindowId>)
        ensures
            final(self)@ == old(self)@.focus_popped(),
            r == final(self)@.focused,
    {
        let _ = self.focus_history.pop();
        let n: usize = self.focus_history.len();
        self.focused = if n > 0 {
            Some(self.focus_history[n - 1])
        } else {
            None
        };
        assert(old(self)@.focus_history.len() > 0 ==> self.focus_history@
            =~= old(self)@.focus_history.drop_last());
        assert(old(self)@.focus_history.len() == 0 ==> self.focus_history@
            =~= old(self)@.focus_history);
        self.focused
    }

    fn drop_floating(&mut self, id: WindowId)
        ensures
            final(self)@ == (Ws {
                floating: old(self)@.floating.filter(is_float_of_other(id)),
                ..old(self)@
            }),
    {
        let mut kept: Vec<FloatingWindow> = Vec::new();
        let mut i: usize = 0;
        let ghost p = is_float_of_other(id);
        while i < self.floating.len()
            invariant
                p == is_float_of_other(id),
                i <= self.floating@.len(),
                kept@ == self.floating@.take(i as int).filter(p),
                *self == *old(self),
            decreases self.floating.len() - i,
        {
            proof {
                assert(self.floating@.take(i + 1).drop_last() =~= self.floating@.take(i as int));
                reveal(Seq::filter);
            }
            if self.floating[i].id != id {
                kept.push(self.floating[i]);
            }
            i = i + 1;
        }
        assert(self.floating@.take(self.floating@.len() as int) =~= self.floating@);
        self.floating = kept;
    }

    /// Lets a window leave the workspace; says whether it floated.
    pub fn take_window(&mut self, id: WindowId) -> (r: bool)
        ensures
            final(self)@ == old(self)@.taken(id),
            r == old(self)@.floats(id),
    {
        let was_floating: bool = self.is_floating(id);
        self.drop_floating(id);
        if !was_floating {
            let _ = self.tree.remove(id);
        }
        let history = remove_all_u32(&self.focus_history, id);
        self.focus_history = history;
        if let Some(f) = self.focused {
            if f == id {
                let n: usize = self.focus_history.len();
                self.focused = if n > 0 {
                    Some(self.focus_history[n - 1])
                } else {
                    self.tree.first_window()
                };
            }
        }
        was_floating
    }

    /// Lets a window enter the workspace and gives it the focus.
    pub fn place_window(&mut self, id: WindowId, float: Option<Rect>, screen: Rect)
        ensures
            final(self)@ == old(self)@.placed(id, float, screen),
    {
        match float {
            Some(geometry) => {
                self.floating.push(FloatingWindow { id, geometry });
            },
            None => {
                self.tree.insert_with_rect(id, self.focused, screen);
            },
        }
        self.record_focus(id);
    }

    /// Removes a window and leaves the focus alone.
    pub fn discard_window(&mut self, id: WindowId)
        ensures
            final(self)@ == (Ws {
                floating: old(self)@.floating.filter(is_float_of_other(id)),
                tree: old(self)@.tree.removed(id),
                ..old(self)@
            }),
    {
        self.drop_floating(id);
        let _ = self.tree.remove(id);
    }

    /// Removes a window that was closed.
    pub fn close_window(&mut self, id: WindowId)
        ensures
            final(self)@ == old(self)@.closed(id),
    {
        self.discard_window(id);
        if let Some(f) = self.focused {
            if f == id {
                let _ = self.pop_focus();
            }
        }
    }
}

/// Tells the workspace of a name.
pub open spec fn is_named(id: WsId) -> spec_fn(Ws) -> bool {
    |ws: Ws| ws.id == id
}

/// Tells the workspaces that hold a window.
pub open spec fn holds_window(w: WindowId) -> spec_fn(Ws) -> bool {
    |ws: Ws| ws.holds(w)
}

/// Numbered workspaces up to a count, added behind those that are there.
pub open spec fn grown(s: Seq<Ws>, count: int) -> Seq<Ws>
    decreases count - s.len(),
{
    if s.len() >= count {
        s
    } else {
        grown(s.push(Ws::fresh(WsId::Numbered(((s.len() + 1) % 256) as u8))), count)
    }
}

/// Where the workspace of a name is once it exists.
pub open spec fn index_of_id(s: Seq<Ws>, id: WsId) -> int {
    match first_where(s, is_named(id)) {
        Some(i) => i,
        None => match id {
            WsId::Numbered(n) => if n > 0 { n - 1 } else { 0 },
            _ => s.len() as int,
        },
    }
}

/// The workspaces once the one of a name exists.
pub open spec fn with_id(s: Seq<Ws>, id: WsId) -> Seq<Ws> {
    match first_where(s, is_named(id)) {
        Some(i) => s,
        None => match id {
            WsId::Numbered(n) => grown(s, index_of_id(s, id) + 1),
            _ => s.push(Ws::fresh(id)),
        },
    }
}

/// All workspaces; numbered workspace `n` is at index `n - 1`.
#[derive(Debug)]
pub struct WorkspaceManager {
    pub workspaces: Vec<Workspace>,
}

impl View for WorkspaceManager {
    type V = Seq<Ws>;

    open spec fn view(&self) -> Seq<Ws> {
        Seq::new(self.workspaces@.len(), |i: int| self.workspaces@[i]@)
    }
}

impl Default for WorkspaceManager {
    fn default() -> (r: Self)
        ensures
            r@ == grown(seq![], 10),
            r@.len() == 10,
    {
        WorkspaceManager::new()
    }
}

impl WorkspaceManager {
    /// Ten numbered workspaces.
    pub fn new() -> (r: Self)
        ensures
            r@ == grown(seq![], 10),
            r@.len() == 10,
    {
        let mut r = WorkspaceManager { workspaces: Vec::new() };
        assert(r@ =~= seq![]);
        r.grow(10);
        r
    }

    fn grow(&mut self, count: usize)
        ensures
            final(self)@ == grown(old(self)@, count as int),
            final(self)@.len() >= count,
            old(self)@.len() <= count ==> final(self)@.len() == count,
    {
        while self.workspaces.len() < count
            invariant
                grown(self@, count as int) == grown(old(self)@, count as int),
                old(self)@.len() <= count ==> self@.len() <= count,
            decreases count - self.workspaces.len(),
        {
            let n: usize = self.workspaces.len() + 1;
            let ghost before = self@;
            self.workspaces.push(Workspace::new(WorkspaceId::Numbered((n % 256) as u8)));
            assert(self@ =~= before.push(Ws::fresh(WsId::Numbered((n % 256) as u8))));
        }
    }

    pub fn get(&self, idx: usize) -> (r: &Workspace)
        requires
            idx < self@.len(),
        ensures
            r@ == self@[idx as int],
    {
        &self.workspaces[idx]
    }

    pub fn get_mut(&mut self, idx: usize) -> (r: &mut Workspace)
        requires
            idx < old(self)@.len(),
        ensures
            r@ == old(self)@[idx as int],
            final(self)@ == old(self)@.update(idx as int, final(r)@),
    {
        &mut self.workspaces[idx]
    }

    /// The workspace at an index, after adding numbered ones up to it.
    pub fn get_or_create(&mut self, idx: usize) -> (r: &mut Workspace)
        requires
            idx < usize::MAX,
        ensures
            r@ == grown(old(self)@, idx + 1)[idx as int],
            final(self)@ == grown(old(self)@, idx + 1).update(idx as int, final(r)@),
    {
        self.grow(idx + 1);
        &mut self.workspaces[idx]
    }

    pub fn count(&self) -> (r: usize)
        ensures
            r == self@.len(),
    {
        self.workspaces.len()
    }

    pub fn find_by_id(&self, id: &WorkspaceId) -> (r: Option<usize>)
        ensures
            match r {
                Some(i) => first_where(self@, is_named(id@)) == Some(i as int) && i < self@.len()
                    && self@[i as int].id == id@,
                None => first_where(self@, is_named(id@)) is None,
            },
    {
        let ghost p = is_named(id@);
        let mut i: usize = 0;
        while i < self.workspaces.len()
            invariant
                p == is_named(id@),
                i <= self@.len(),
                self@.len() == self.workspaces@.len(),
                forall|j: int| 0 <= j < i ==> !p(#[trigger] self@[j]),
            decreases self.workspaces.len() - i,
        {
            if self.workspaces[i].id.is(id) {
                proof {
                    lemma_first_where(self@, p, i as int);
                }
                return Some(i);
            }
            i = i + 1;
        }
        proof {
            lemma_first_where_none(self@, p);
        }
        None
    }

    /// The index of the workspace of a name, which is added if need be.
    pub fn get_or_create_by_id(&mut self, id: WorkspaceId) -> (r: usize)
        ensures
            final(self)@ == with_id(old(self)@, id@),
            r == index_of_id(old(self)@, id@),
            r < final(self)@.len(),
    {
        if let Some(idx) = self.find_by_id(&id) {
            return idx;
        }
        match id {
            WorkspaceId::Numbered(num) => {
                let idx: usize = if num > 0 {
                    num as usize - 1
                } else {
                    0
                };
                self.grow(idx + 1);
                idx
            },
            other => {
                let idx: usize = self.workspaces.len();
                let ghost before = self@;
                self.workspaces.push(Workspace::new(other));
                assert(self@ =~= before.push(Ws::fresh(other@)));
                idx
            },
        }
    }

    pub fn get_or_create_target(&mut self, target: &WorkspaceTarget) -> (r: usize)
        ensures
            final(self)@ == with_id(old(self)@, target.id()),
            r == index_of_id(old(self)@, target.id()),
            r < final(self)@.len(),
    {
        self.get_or_create_by_id(target.to_workspace_id())
    }

    /// The first workspace that holds a window, tiled or floating.
    pub fn find_window(&self, window_id: WindowId) -> (r: Option<usize>)
        ensures
            match r {
                Some(i) => first_where(self@, holds_window(window_id)) == Some(i as int) && i
                    < self@.len() && self@[i as int].holds(window_id),
                None => first_where(self@, holds_window(window_id)) is None,
            },
    {
        let ghost p = holds_window(window_id);
        let mut i: usize = 0;
        while i < self.workspaces.len()
            invariant
                p == holds_window(window_id),
                i <= self@.len(),
                self@.len() == self.workspaces@.len(),
                forall|j: int| 0 <= j < i ==> !p(#[trigger] self@[j]),
            decreases self.workspaces.len() - i,
        {
            if self.workspaces[i].holds(window_id) {
                proof {
                    lemma_first_where(self@, p, i as int);
                }
                return Some(i);
            }
            i = i + 1;
        }
        proof {
            lemma_first_where_none(self@, p);
        }
        None
    }

    /// All workspaces in order.
    pub fn iter(&self) -> (r: &Vec<Workspace>)
        ensures
            r@ == self.workspaces@,
    {
        &self.workspaces
    }

    /// The index of a special workspace, which is added if need be.
    pub fn special_index(&mut self, name: &str) -> (r: usize)
        ensures
            final(self)@ == with_id(old(self)@, WsId::Special(name@)),
            r == index_of_id(old(self)@, WsId::Special(name@)),
            r < final(self)@.len(),
    {
        self.get_or_create_by_id(WorkspaceId::Special(copy(name)))
    }
}

/// Growing keeps the workspaces that are there.
pub proof fn law_growing_keeps_workspaces(s: Seq<Ws>, count: int)
    ensures
        grown(s, count).len() >= s.len(),
        grown(s, count).len() >= count,
        grown(s, count).len() == if count > s.len() { count } else { s.len() as int },
        forall|i: int| 0 <= i < s.len() ==> #[trigger] grown(s, count)[i] == s[i],
    decreases count - s.len(),
{
    if s.len() < count {
        let t = s.push(Ws::fresh(WsId::Numbered(((s.len() + 1) % 256) as u8)));
        law_growing_keeps_workspaces(t, count);
        assert forall|i: int| 0 <= i < s.len() implies #[trigger] grown(s, count)[i] == s[i] by {
            assert(t[i] == s[i]);
        }
    }
}

/// Asking for a workspace by name keeps those that are there, and asking again
/// gives the same place and adds nothing, wherever that place has the name.
pub proof fn law_workspace_by_name(s: Seq<Ws>, id: WsId)
    ensures
        forall|i: int| 0 <= i < s.len() ==> #[trigger] with_id(s, id)[i] == s[i],
        with_id(s, id).len() >= s.len(),
        !(id is Numbered) ==> with_id(s, id)[index_of_id(s, id)].id == id,
        !(id is Numbered) ==> index_of_id(with_id(s, id), id) == index_of_id(s, id),
        !(id is Numbered) ==> with_id(with_id(s, id), id) == with_id(s, id),
{
    let p = is_named(id);
    lemma_first_where_found(s, p);
    match first_where(s, p) {
        Some(i) => {},
        None => {
            match id {
                WsId::Numbered(n) => {
                    law_growing_keeps_workspaces(s, index_of_id(s, id) + 1);
                },
                _ => {
                    let t = s.push(Ws::fresh(id));
                    assert(is_first_where(t, p, s.len() as int)) by {
                        assert forall|j: int| 0 <= j < s.len() implies !p(#[trigger] t[j]) by {
                            assert(t[j] == s[j]);
                        }
                    }
                    lemma_first_where(t, p, s.len() as int);
                },
            }
        },
    }
}

/// After a window got the focus, closing it gives the focus back to the one
/// that had it before.
pub proof fn law_pop_undoes_focus(ws: Ws, w: WindowId)
    requires
        !ws.focus_history.contains(w),
    ensures
        ws.focus_recorded(w).focus_popped().focus_history == ws.focus_history,
        ws.focus_recorded(w).focus_popped().focused == last_of(ws.focus_history),
{
    lemma_without_absent(ws.focus_history, w);
    assert(without(ws.focus_history, w).push(w).drop_last() =~= ws.focus_history);
}

/// Nothing to leave out.
pub proof fn lemma_without_absent<T>(s: Seq<T>, x: T)
    requires
        !s.contains(x),
    ensures
        without(s, x) == s,
    decreases s.len(),
{
    reveal(Seq::filter);
    if s.len() > 0 {
        let rest = s.drop_last();
        assert(s.last() != x) by {
            assert(s[s.len() - 1] == s.last());
        }
        assert(!rest.contains(x)) by {
            if rest.contains(x) {
                let i = choose|i: int| 0 <= i < rest.len() && rest[i] == x;
                assert(s[i] == x);
            }
        }
        lemma_without_absent(rest, x);
        assert(s =~= rest.push(s.last()));
    } else {
        assert(without(s, x) =~= s);
    }
}

} // verus!
