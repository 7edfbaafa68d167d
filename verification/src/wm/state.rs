//! The state of the window manager and what can be read off it.
use vstd::prelude::*;
use crate::config::lua::{default_defs, default_workspace_definitions};
use crate::config::order::def_views;
use crate::config::rules::{Rule, WindowRule};
use crate::config::special::{overlay_views, Overlay, SpecialWorkspaceConfig};
use crate::seqs::{first_where, lemma_first_where, lemma_first_where_none};
use crate::text::copy;
use crate::wm::effects::Effect;
use crate::wm::geometry::{fit, fit_i64, Direction, Rect, POINT};
use crate::wm::monitor::{find_display, find_showing, is_display, shows, Monitor};
use crate::wm::window::{Win, WindowId, WindowRegistry};
use crate::wm::window_event::{Event, WindowEvent};
use crate::wm::workspace::{
    grown, holds_window, Workspace, WorkspaceDefinition, WorkspaceManager, WorkspacePrefs, Ws,
    WsDef, WsId,
};

verus! {

/// A move of the focus: from a window in a direction to another one.
#[derive(Clone, Copy, Debug, PartialEq, Eq, Structural)]
pub struct FocusMemory {
    pub from: WindowId,
    pub direction: Direction,
    pub to: WindowId,
}

/// A window that the manager itself gave the focus, and until when reports of
/// that focus are its own echo.
#[derive(Clone, Copy, Debug, PartialEq, Eq, Structural)]
pub struct RecentFocus {
    pub id: WindowId,
    pub pid: i32,
    pub until: u64,
}

#[derive(Clone, Copy, Debug, PartialEq, Eq, Structural)]
pub enum DragMode {
    Move,
    Resize,
}

/// A floating window under the mouse button.
#[derive(Clone, Copy, Debug, PartialEq, Eq, Structural)]
pub struct DragState {
    pub window_id: WindowId,
    pub mode: DragMode,
    pub start_x: i64,
    pub start_y: i64,
    pub start_geometry: Rect,
}

/// A window as the screen reports it.
#[derive(Debug)]
pub struct NewWindow {
    pub id: WindowId,
    pub app_pid: i32,
    pub app_name: String,
    pub app_bundle_id: String,
    pub title: String,
    pub role: String,
    pub subrole: String,
    pub x: i64,
    pub y: i64,
    pub width: i64,
    pub height: i64,
}

/// A window as the screen reports it, as a mathematical value.
pub struct NewWin {
    pub id: WindowId,
    pub app_pid: i32,
    pub app_name: Seq<char>,
    pub app_bundle_id: Seq<char>,
    pub title: Seq<char>,
    pub role: Seq<char>,
    pub subrole: Seq<char>,
    pub x: i64,
    pub y: i64,
    pub width: i64,
    pub height: i64,
}

impl View for NewWindow {
    type V = NewWin;

    open spec fn view(&self) -> NewWin {
        NewWin {
            id: self.id,
            app_pid: self.app_pid,
            app_name: self.app_name@,
            app_bundle_id: self.app_bundle_id@,
            title: self.title@,
            role: self.role@,
            subrole: self.subrole@,
            x: self.x,
            y: self.y,
            width: self.width,
            height: self.height,
        }
    }
}

impl Clone for NewWindow {
    fn clone(&self) -> (r: Self)
        ensures
            r@ == self@,
    {
        NewWindow {
            id: self.id,
            app_pid: self.app_pid,
            app_name: copy(self.app_name.as_str()),
            app_bundle_id: copy(self.app_bundle_id.as_str()),
            title: copy(self.title.as_str()),
            role: copy(self.role.as_str()),
            subrole: copy(self.subrole.as_str()),
            x: self.x,
            y: self.y,
            width: self.width,
            height: self.height,
        }
    }
}

/// Work on windows that are larger than their tiles, workspace by workspace.
#[derive(Debug)]
pub struct FixJob {
    /// The workspaces that are left; work is on the first.
    pub todo: Vec<usize>,
    /// Windows that were moved to a larger tile already.
    pub settled: Vec<WindowId>,
    /// Whether trading places is over, and what does not fit floats.
    pub floating: bool,
}

#[verifier::ext_equal]
pub struct Fix {
    pub todo: Seq<usize>,
    pub settled: Seq<WindowId>,
    pub floating: bool,
}

impl View for FixJob {
    type V = Fix;

    open spec fn view(&self) -> Fix {
        Fix { todo: self.todo@, settled: self.settled@, floating: self.floating }
    }
}

/// Work on a workspace into which a window was moved.
#[derive(Debug)]
pub struct TargetJob {
    pub ws_idx: usize,
    pub moved: WindowId,
    /// Whether the moved window is known to be too large.
    pub checked: bool,
    pub settled: Vec<WindowId>,
}

#[verifier::ext_equal]
pub struct Target {
    pub ws_idx: usize,
    pub moved: WindowId,
    pub checked: bool,
    pub settled: Seq<WindowId>,
}

impl View for TargetJob {
    type V = Target;

    open spec fn view(&self) -> Target {
        Target {
            ws_idx: self.ws_idx,
            moved: self.moved,
            checked: self.checked,
            settled: self.settled@,
        }
    }
}

/// Work that waits until the effects before it have been performed.
#[derive(Debug)]
pub enum Task {
    /// Makes room for windows that are too large for their tiles.
    FixVisible(FixJob),
    /// Makes room for a window that was moved to a workspace.
    FixTarget(TargetJob),
    /// Gives the focus to a workspace that has just been shown.
    FinishSwitch { ws_idx: usize },
    /// Lets the mouse follow the focus.
    FollowFocus { ws_idx: usize, id: WindowId },
    /// Gives the focus to the focused window of the active workspace.
    FocusActive,
    /// Takes a window in; one that is known only if `again` is set.
    Admit { window: NewWindow, again: bool },
    /// Handles what happened to a window.
    Handle(WindowEvent),
    /// Hides every window that cannot be seen.
    HideUnseen,
    /// Lays out once.
    Layout,
    /// Lays out twice and makes room for large windows.
    Retile,
    /// Draws all borders.
    Borders,
}

#[verifier::ext_equal]
pub enum Todo {
    FixVisible(Fix),
    FixTarget(Target),
    FinishSwitch { ws_idx: usize },
    FollowFocus { ws_idx: usize, id: WindowId },
    FocusActive,
    Admit { window: NewWin, again: bool },
    Handle(Event),
    HideUnseen,
    Layout,
    Retile,
    Borders,
}

impl View for Task {
    type V = Todo;

    open spec fn view(&self) -> Todo {
        match *self {
            Task::FixVisible(job) => Todo::FixVisible(job@),
            Task::FixTarget(job) => Todo::FixTarget(job@),
            Task::FinishSwitch { ws_idx } => Todo::FinishSwitch { ws_idx },
            Task::FollowFocus { ws_idx, id } => Todo::FollowFocus { ws_idx, id },
            Task::FocusActive => Todo::FocusActive,
            Task::Admit { window, again } => Todo::Admit { window: window@, again },
            Task::Handle(event) => Todo::Handle(event@),
            Task::HideUnseen => Todo::HideUnseen,
            Task::Layout => Todo::Layout,
            Task::Retile => Todo::Retile,
            Task::Borders => Todo::Borders,
        }
    }
}

/// All numbers are below a bound.
pub open spec fn all_below(s: Seq<usize>, bound: int) -> bool {
    forall|i: int| 0 <= i < s.len() ==> #[trigger] s[i] < bound
}

impl Todo {
    /// The task speaks of workspaces that exist.
    pub open spec fn is_within(self, count: int) -> bool {
        match self {
            Todo::FixVisible(job) => all_below(job.todo, count),
            Todo::FixTarget(job) => job.ws_idx < count,
            Todo::FinishSwitch { ws_idx } => ws_idx < count,
            Todo::FollowFocus { ws_idx, .. } => ws_idx < count,
            _ => true,
        }
    }
}

/// Central state of the window manager.
#[derive(Debug)]
pub struct WmState {
    pub registry: WindowRegistry,
    pub workspaces: WorkspaceManager,
    /// From left to right.
    pub monitors: Vec<Monitor>,
    pub focused_monitor: usize,
    pub bar_height: i64,
    /// The time in milliseconds at which an operation takes place.
    pub now: u64,
    /// Until when the focus does not follow the mouse.
    pub ffm_cooldown_until: Option<u64>,
    /// The window that was last under the mouse.
    pub ffm_last_window: Option<WindowId>,
    pub focus_return_memory: Vec<FocusMemory>,
    pub recent_internal_focus: Vec<RecentFocus>,
    /// Until when reports of a focus from outside are dropped.
    pub workspace_switch_silence_until: Option<u64>,
    pub drag: Option<DragState>,
    pub focus_follows_mouse: bool,
    pub mouse_follows_focus: bool,
    pub gap_inner: i64,
    pub gap_outer: i64,
    pub rules: Vec<WindowRule>,
    /// The special workspace that lies over each monitor.
    pub active_specials: Vec<Option<usize>>,
    pub special_configs: Vec<SpecialWorkspaceConfig>,
    pub workspace_defs: Vec<WorkspaceDefinition>,
    pub borders_enabled: bool,
    /// What is to be done to the windows, in order.
    pub effects: Vec<Effect>,
    /// What is to be decided once the effects are done, in order.
    pub agenda: Vec<Task>,
}

/// The state as a mathematical value.
#[verifier::ext_equal]
pub struct Wm {
    pub registry: Seq<Win>,
    pub workspaces: Seq<Ws>,
    pub monitors: Seq<Monitor>,
    pub focused_monitor: usize,
    pub bar_height: i64,
    pub now: u64,
    pub cooldown: Option<u64>,
    pub hovered: Option<WindowId>,
    pub memory: Seq<FocusMemory>,
    pub recent: Seq<RecentFocus>,
    pub silence: Option<u64>,
    pub drag: Option<DragState>,
    pub focus_follows_mouse: bool,
    pub mouse_follows_focus: bool,
    pub gap_inner: i64,
    pub gap_outer: i64,
    pub rules: Seq<Rule>,
    pub specials: Seq<Option<usize>>,
    pub overlays: Seq<Overlay>,
    pub defs: Seq<WsDef>,
    pub borders: bool,
    pub effects: Seq<Effect>,
    pub agenda: Seq<Todo>,
}

pub open spec fn rule_views(s: Seq<WindowRule>) -> Seq<Rule> {
    Seq::new(s.len(), |i: int| s[i]@)
}

pub open spec fn task_views(s: Seq<Task>) -> Seq<Todo> {
    Seq::new(s.len(), |i: int| s[i]@)
}

impl View for WmState {
    type V = Wm;

    open spec fn view(&self) -> Wm {
        Wm {
            registry: self.registry@,
            workspaces: self.workspaces@,
            monitors: self.monitors@,
            focused_monitor: self.focused_monitor,
            bar_height: self.bar_height,
            now: self.now,
            cooldown: self.ffm_cooldown_until,
            hovered: self.ffm_last_window,
            memory: self.focus_return_memory@,
            recent: self.recent_internal_focus@,
            silence: self.workspace_switch_silence_until,
            drag: self.drag,
            focus_follows_mouse: self.focus_follows_mouse,
            mouse_follows_focus: self.mouse_follows_focus,
            gap_inner: self.gap_inner,
            gap_outer: self.gap_outer,
            rules: rule_views(self.rules@),
            specials: self.active_specials@,
            overlays: overlay_views(self.special_configs@),
            defs: def_views(self.workspace_defs@),
            borders: self.borders_enabled,
            effects: self.effects@,
            agenda: task_views(self.agenda@),
        }
    }
}

/// Tells the definition of a workspace.
pub open spec fn defines(id: WsId) -> spec_fn(WsDef) -> bool {
    |def: WsDef| def.id == id
}

/// An index as a `usize`.
pub open spec fn at(i: Option<int>) -> Option<usize> {
    match i {
        Some(k) => Some(k as usize),
        None => None,
    }
}

impl Wm {
    /// Every index in the state is one of something that exists.
    pub open spec fn sound(self) -> bool {
        &&& self.workspaces.len() <= usize::MAX
        &&& self.specials.len() <= self.monitors.len() <= usize::MAX
        &&& forall|i: int|
            0 <= i < self.monitors.len() ==> (#[trigger] self.monitors[i]).active_workspace
                < self.workspaces.len()
        &&& forall|i: int|
            0 <= i < self.specials.len() ==> ((#[trigger] self.specials[i]) is Some
                ==> self.specials[i]->0 < self.workspaces.len())
        &&& forall|i: int|
            0 <= i < self.agenda.len() ==> (#[trigger] self.agenda[i]).is_within(
                self.workspaces.len() as int,
            )
    }

    /// There is a focused monitor.
    pub open spec fn ready(self) -> bool {
        self.sound() && self.focused_monitor < self.monitors.len()
    }

    /// The index of the active workspace.
    pub open spec fn active_idx(self) -> usize {
        self.monitors[self.focused_monitor as int].active_workspace
    }

    /// The workspace that the focused monitor shows.
    pub open spec fn active(self) -> Ws {
        self.workspaces[self.active_idx() as int]
    }

    /// The special workspace over a monitor.
    pub open spec fn special_on(self, mi: usize) -> Option<usize> {
        if mi < self.specials.len() {
            self.specials[mi as int]
        } else {
            None
        }
    }

    /// The focused window, that of a special workspace before that of the
    /// workspace below it.
    pub open spec fn effective_focused(self) -> Option<WindowId> {
        match self.special_on(self.focused_monitor) {
            Some(i) if self.workspaces[i as int].focused is Some => {
                self.workspaces[i as int].focused
            },
            _ => self.active().focused,
        }
    }

    /// The preferences of a workspace, if it is defined.
    pub open spec fn prefs_of(self, ws_idx: usize) -> Option<WorkspacePrefs> {
        match first_where(self.defs, defines(self.workspaces[ws_idx as int].id)) {
            Some(i) => Some(self.defs[i].prefs),
            None => None,
        }
    }

    /// The inner and outer gap of a workspace.
    pub open spec fn gaps_of(self, ws_idx: usize) -> (i64, i64) {
        match self.prefs_of(ws_idx) {
            Some(prefs) => (
                match prefs.gap_inner {
                    Some(g) => g,
                    None => self.gap_inner,
                },
                match prefs.gap_outer {
                    Some(g) => g,
                    None => self.gap_outer,
                },
            ),
            None => (self.gap_inner, self.gap_outer),
        }
    }

    /// The monitor that a workspace prefers, if it is connected.
    pub open spec fn preferred_monitor(self, ws_idx: usize) -> Option<usize> {
        match self.prefs_of(ws_idx) {
            Some(prefs) => match prefs.monitor {
                Some(m) => at(first_where(self.monitors, is_display(m.display_id))),
                None => None,
            },
            None => None,
        }
    }

    /// What a monitor offers to windows: less the bar where the system keeps no
    /// room for one of its own.
    pub open spec fn rect_on(self, mi: usize) -> Rect {
        let m = self.monitors[mi as int];
        let r = m.usable_frame;
        if self.bar_height > 0 && -POINT < r.y - m.frame.y < POINT {
            Rect {
                x: r.x,
                y: fit(r.y + self.bar_height),
                width: r.width,
                height: fit(r.height - self.bar_height),
            }
        } else {
            r
        }
    }

    pub open spec fn focused_rect(self) -> Rect {
        self.rect_on(self.focused_monitor)
    }

    /// The first monitor that shows a workspace.
    pub open spec fn showing(self, ws_idx: usize) -> Option<usize> {
        at(first_where(self.monitors, shows(ws_idx)))
    }

    /// Whether a workspace lies over some monitor.
    pub open spec fn overlays_some(self, ws_idx: usize) -> bool {
        self.specials.contains(Some(ws_idx))
    }

    /// Whether a workspace can be seen.
    pub open spec fn is_visible(self, ws_idx: usize) -> bool {
        self.showing(ws_idx) is Some || self.overlays_some(ws_idx)
    }

    /// The workspaces, each marked with whether it can be seen.
    pub open spec fn visibility_synced(self) -> Wm {
        Wm {
            workspaces: Seq::new(
                self.workspaces.len(),
                |i: int| Ws { visible: self.is_visible(i as usize), ..self.workspaces[i] },
            ),
            ..self
        }
    }

    /// The tiles of a workspace in a rectangle, as they are shown.
    pub open spec fn tiles(self, ws_idx: usize, rect: Rect) -> Seq<(WindowId, Rect)> {
        let (inner, outer) = self.gaps_of(ws_idx);
        self.workspaces[ws_idx as int].tree.geometries(rect, inner, outer, true)
    }

    /// The tiles of a workspace in a rectangle, as the focus moves over them.
    pub open spec fn focus_tiles(self, ws_idx: usize, rect: Rect) -> Seq<(WindowId, Rect)> {
        let (inner, outer) = self.gaps_of(ws_idx);
        self.workspaces[ws_idx as int].tree.focus_geometries(rect, inner, outer, true)
    }

    /// The workspace that holds a window.
    pub open spec fn home_of(self, id: WindowId) -> Option<usize> {
        at(first_where(self.workspaces, holds_window(id)))
    }

    /// Whether a window is on a workspace that cannot be seen.
    pub open spec fn hides(self, id: WindowId) -> bool {
        match self.home_of(id) {
            Some(ws_idx) => !self.is_visible(ws_idx),
            None => false,
        }
    }

    /// One workspace changes.
    pub open spec fn with_ws(self, ws_idx: usize, ws: Ws) -> Wm {
        Wm { workspaces: self.workspaces.update(ws_idx as int, ws), ..self }
    }

    /// More is to be done to the windows.
    pub open spec fn did(self, effects: Seq<Effect>) -> Wm {
        Wm { effects: self.effects + effects, ..self }
    }

    /// One task more.
    pub open spec fn later(self, task: Todo) -> Wm {
        Wm { agenda: self.agenda.push(task), ..self }
    }

    /// The state at the start.
    pub open spec fn start() -> Wm {
        Wm {
            registry: seq![],
            workspaces: grown(seq![], 10),
            monitors: seq![],
            focused_monitor: 0,
            bar_height: 0,
            now: 0,
            cooldown: None,
            hovered: None,
            memory: seq![],
            recent: seq![],
            silence: None,
            drag: None,
            focus_follows_mouse: true,
            mouse_follows_focus: true,
            gap_inner: 0,
            gap_outer: 0,
            rules: seq![],
            specials: seq![],
            overlays: seq![],
            defs: default_defs(),
            borders: false,
            effects: seq![],
            agenda: seq![],
        }
    }
}

impl Default for WmState {
    fn default() -> (r: Self)
        ensures
            r@ == Wm::start(),
            r@.sound(),
    {
        WmState::new()
    }
}

impl WmState {
    pub fn new() -> (r: Self)
        ensures
            r@ == Wm::start(),
            r@.sound(),
    {
        let r = WmState {
            registry: WindowRegistry::new(),
            workspaces: WorkspaceManager::new(),
            monitors: Vec::new(),
            focused_monitor: 0,
            bar_height: 0,
            now: 0,
            ffm_cooldown_until: None,
            ffm_last_window: None,
            focus_return_memory: Vec::new(),
            recent_internal_focus: Vec::new(),
            workspace_switch_silence_until: None,
            drag: None,
            focus_follows_mouse: true,
            mouse_follows_focus: true,
            gap_inner: 0,
            gap_outer: 0,
            rules: Vec::new(),
            active_specials: Vec::new(),
            special_configs: Vec::new(),
            workspace_defs: default_workspace_definitions(),
            borders_enabled: false,
            effects: Vec::new(),
            agenda: Vec::new(),
        };
        assert(r@ =~= Wm::start());
        r
    }

    /// Active workspace index for the focused monitor.
    pub fn active_ws_idx(&self) -> (r: usize)
        requires
            self@.ready(),
        ensures
            r == self@.active_idx(),
            r < self@.workspaces.len(),
    {
        self.monitors[self.focused_monitor].active_workspace
    }

    pub fn active_workspace(&self) -> (r: &Workspace)
        requires
            self@.ready(),
        ensures
            r@ == self@.active(),
    {
        self.workspaces.get(self.active_ws_idx())
    }

    pub fn active_workspace_mut(&mut self) -> (r: &mut Workspace)
        requires
            old(self)@.ready(),
        ensures
            r@ == old(self)@.active(),
            final(self)@ == old(self)@.with_ws(old(self)@.active_idx(), final(r)@),
    {
        let idx: usize = self.active_ws_idx();
        self.workspaces.get_mut(idx)
    }

    /// The special workspace over a monitor.
    pub fn special_on(&self, mi: usize) -> (r: Option<usize>)
        ensures
            r == self@.special_on(mi),
    {
        if mi < self.active_specials.len() {
            self.active_specials[mi]
        } else {
            None
        }
    }

    /// The focused window, that of a special workspace first.
    pub fn effective_focused(&self) -> (r: Option<WindowId>)
        requires
            self@.ready(),
        ensures
            r == self@.effective_focused(),
    {
        if let Some(special_idx) = self.special_on(self.focused_monitor) {
            let focused = self.workspaces.get(special_idx).focused;
            if focused.is_some() {
                return focused;
            }
        }
        self.active_workspace().focused
    }

    pub fn workspace_prefs(&self, ws_idx: usize) -> (r: Option<WorkspacePrefs>)
        requires
            ws_idx < self@.workspaces.len(),
        ensures
            r == self@.prefs_of(ws_idx),
    {
        let id = &self.workspaces.get(ws_idx).id;
        let ghost p = defines(id@);
        let ghost defs = self@.defs;
        let mut i: usize = 0;
        while i < self.workspace_defs.len()
            invariant
                p == defines(id@),
                defs == def_views(self.workspace_defs@),
                i <= self.workspace_defs@.len(),
                forall|j: int| 0 <= j < i ==> !p(#[trigger] defs[j]),
                defs == self@.defs,
                id@ == self@.workspaces[ws_idx as int].id,
            decreases self.workspace_defs.len() - i,
        {
            if self.workspace_defs[i].id.is(id) {
                proof {
                    assert(defs[i as int] == self.workspace_defs@[i as int]@);
                    lemma_first_where(defs, p, i as int);
                }
                return Some(self.workspace_defs[i].prefs);
            }
            assert(!p(defs[i as int]));
            i = i + 1;
        }
        proof {
            lemma_first_where_none(defs, p);
        }
        None
    }

    /// The inner and outer gap of a workspace.
    pub fn workspace_gaps(&self, ws_idx: usize) -> (r: (i64, i64))
        requires
            ws_idx < self@.workspaces.len(),
        ensures
            r == self@.gaps_of(ws_idx),
    {
        match self.workspace_prefs(ws_idx) {
            Some(prefs) => (
                match prefs.gap_inner {
                    Some(g) => g,
                    None => self.gap_inner,
                },
                match prefs.gap_outer {
                    Some(g) => g,
                    None => self.gap_outer,
                },
            ),
            None => (self.gap_inner, self.gap_outer),
        }
    }

    pub fn preferred_monitor_for_workspace(&self, ws_idx: usize) -> (r: Option<usize>)
        requires
            ws_idx < self@.workspaces.len(),
        ensures
            r == self@.preferred_monitor(ws_idx),
            r is Some ==> r->0 < self@.monitors.len(),
    {
        match self.workspace_prefs(ws_idx) {
            Some(prefs) => match prefs.monitor {
                Some(m) => find_display(&self.monitors, m.display_id),
                None => None,
            },
            None => None,
        }
    }

    /// What a monitor offers to windows.
    pub fn monitor_rect(&self, mi: usize) -> (r: Rect)
        requires
            mi < self@.monitors.len(),
        ensures
            r == self@.rect_on(mi),
    {
        let m: Monitor = self.monitors[mi];
        let r: Rect = m.usable_frame;
        let shift: i128 = r.y as i128 - m.frame.y as i128;
        if self.bar_height > 0 && -(POINT as i128) < shift && shift < POINT as i128 {
            Rect::new(
                r.x,
                fit_i64(r.y as i128 + self.bar_height as i128),
                r.width,
                fit_i64(r.height as i128 - self.bar_height as i128),
            )
        } else {
            r
        }
    }

    pub fn focused_rect(&self) -> (r: Rect)
        requires
            self@.ready(),
        ensures
            r == self@.focused_rect(),
    {
        self.monitor_rect(self.focused_monitor)
    }

    /// The first monitor that shows a workspace.
    pub fn monitor_showing_workspace(&self, ws_idx: usize) -> (r: Option<usize>)
        ensures
            r == self@.showing(ws_idx),
            r is Some ==> r->0 < self@.monitors.len(),
    {
        find_showing(&self.monitors, ws_idx)
    }

    pub fn special_showing_workspace(&self, ws_idx: usize) -> (r: bool)
        ensures
            r == self@.overlays_some(ws_idx),
    {
        let mut i: usize = 0;
        while i < self.active_specials.len()
            invariant
                i <= self.active_specials@.len(),
                forall|j: int| 0 <= j < i ==> self.active_specials@[j] != Some(ws_idx),
            decreases self.active_specials.len() - i,
        {
            if let Some(idx) = self.active_specials[i] {
                if idx == ws_idx {
                    assert(self@.specials[i as int] == Some(ws_idx));
                    return true;
                }
            }
            i = i + 1;
        }
        false
    }

    /// Whether a workspace can be seen.
    pub fn workspace_is_effectively_visible(&self, ws_idx: usize) -> (r: bool)
        ensures
            r == self@.is_visible(ws_idx),
    {
        self.monitor_showing_workspace(ws_idx).is_some() || self.special_showing_workspace(ws_idx)
    }

    /// Marks each workspace with whether it can be seen.
    pub fn sync_workspace_visibility(&mut self)
        ensures
            final(self)@ == old(self)@.visibility_synced(),
    {
        let n: usize = self.workspaces.count();
        let ghost before = self@;
        let ghost after = self@.visibility_synced();
        let mut i: usize = 0;
        while i < n
            invariant
                i <= n,
                n == before.workspaces.len(),
                after == before.visibility_synced(),
                self@.workspaces.len() == n,
                forall|j: int|
                    0 <= j < n ==> #[trigger] self@.workspaces[j] == if j < i {
                        after.workspaces[j]
                    } else {
                        before.workspaces[j]
                    },
                self@ == (Wm { workspaces: self@.workspaces, ..before }),
            decreases n - i,
        {
            let visible: bool = self.workspace_is_effectively_visible(i);
            assert(visible == before.is_visible(i));
            self.workspaces.get_mut(i).visible = visible;
            i = i + 1;
        }
        assert(self@.workspaces =~= after.workspaces);
    }

    /// The tiles of a workspace in a rectangle, as they are shown.
    pub fn workspace_render_geometries(&self, ws_idx: usize, rect: Rect) -> (r: Vec<
        (WindowId, Rect),
    >)
        requires
            ws_idx < self@.workspaces.len(),
        ensures
            r@ == self@.tiles(ws_idx, rect),
    {
        let (gap_inner, gap_outer) = self.workspace_gaps(ws_idx);
        self.workspaces.get(ws_idx).tree.calculate_geometries_with_gaps(
            rect,
            gap_inner,
            gap_outer,
            true,
        )
    }

    /// The tiles of a workspace in a rectangle, as the focus moves over them.
    pub fn workspace_focus_geometries(&self, ws_idx: usize, rect: Rect) -> (r: Vec<
        (WindowId, Rect),
    >)
        requires
            ws_idx < self@.workspaces.len(),
        ensures
            r@ == self@.focus_tiles(ws_idx, rect),
    {
        let (gap_inner, gap_outer) = self.workspace_gaps(ws_idx);
        self.workspaces.get(ws_idx).tree.calculate_focus_geometries_with_gaps(
            rect,
            gap_inner,
            gap_outer,
            true,
        )
    }

    /// Whether a window is on a workspace that cannot be seen.
    pub fn is_window_hidden(&self, wid: u32) -> (r: bool)
        ensures
            r == self@.hides(wid),
    {
        match self.workspaces.find_window(wid) {
            Some(ws_idx) => !self.workspace_is_effectively_visible(ws_idx),
            None => false,
        }
    }
}

} // verus!
