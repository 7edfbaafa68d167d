//! Windows and applications that come and go.
use vstd::prelude::*;
use crate::config::rules::{Rule, RuleGeometry, WindowRule};
use crate::seqs::{last_where, lemma_last_where_push, position_u32};
use crate::text::{after_prefix, copy, copy_opt, opt_view, starts_with, strip_prefix};
use crate::wm::effects::Effect;
use crate::wm::geometry::Rect;
use crate::wm::state::{rule_views, NewWin, NewWindow, Task, Todo, Wm, WmState};
use crate::wm::window::{
    knows, of_app, of_other_app, window_of, with_changed, with_window, without_window, Win,
    WindowId, WindowState,
};
use crate::wm::window_event::{
    floats_by_itself, is_manageable_window, manageable, should_auto_float, Event, WindowEvent,
    WindowEventKind,
};
use crate::wm::workspace::{
    index_of_id, is_float_of_other, target_named, WorkspaceId, WorkspaceTarget, Ws, WsId,
};

verus! {

/// The least width and height of a window that is taken in when it is created.
pub const MIN_CREATED_SIZE: i64 = 50_000;

/// Tells rules for a window that say whether it floats.
pub open spec fn sets_floating(
    app: Seq<char>,
    bundle: Seq<char>,
    title: Seq<char>,
) -> spec_fn(Rule) -> bool {
    |r: Rule| r.is_for(app, bundle, title) && r.floating is Some
}

/// Tells rules for a window that send it to a workspace.
pub open spec fn sets_workspace(
    app: Seq<char>,
    bundle: Seq<char>,
    title: Seq<char>,
) -> spec_fn(Rule) -> bool {
    |r: Rule| r.is_for(app, bundle, title) && r.workspace is Some
}

/// Tells rules for a window that give it a rectangle.
pub open spec fn sets_geometry(
    app: Seq<char>,
    bundle: Seq<char>,
    title: Seq<char>,
) -> spec_fn(Rule) -> bool {
    |r: Rule| r.is_for(app, bundle, title) && r.geometry is Some
}

/// What rules say of a window.
pub struct Ruling {
    pub floating: Option<bool>,
    pub workspace: Option<Seq<char>>,
    pub geometry: Option<RuleGeometry>,
}

/// Of each matter the last rule decides that says something of it.
pub open spec fn ruling_of(
    rules: Seq<Rule>,
    app: Seq<char>,
    bundle: Seq<char>,
    title: Seq<char>,
) -> Ruling {
    Ruling {
        floating: match last_where(rules, sets_floating(app, bundle, title)) {
            Some(i) => rules[i].floating,
            None => None,
        },
        workspace: match last_where(rules, sets_workspace(app, bundle, title)) {
            Some(i) => rules[i].workspace,
            None => None,
        },
        geometry: match last_where(rules, sets_geometry(app, bundle, title)) {
            Some(i) => rules[i].geometry,
            None => None,
        },
    }
}

pub open spec fn rect_from(geometry: RuleGeometry) -> Rect {
    Rect { x: geometry.0, y: geometry.1, width: geometry.2, height: geometry.3 }
}

impl NewWin {
    /// The window as it is known from now on.
    pub open spec fn as_known(self, floating: bool) -> Win {
        Win {
            id: self.id,
            app_pid: self.app_pid,
            app_name: self.app_name,
            app_bundle_id: self.app_bundle_id,
            title: self.title,
            role: self.role,
            subrole: self.subrole,
            x: self.x,
            y: self.y,
            width: self.width,
            height: self.height,
            floating,
            minimized: false,
        }
    }

    /// The rectangle in which a window floats, if it does.
    pub open spec fn float_in(self, floats: bool, geometry: Option<RuleGeometry>) -> Option<Rect> {
        if floats {
            Some(
                match geometry {
                    Some(g) => rect_from(g),
                    None => Rect {
                        x: self.x,
                        y: self.y,
                        width: self.width,
                        height: self.height,
                    },
                },
            )
        } else {
            None
        }
    }
}

impl Wm {
    /// A window enters a workspace.
    pub open spec fn entered(
        self,
        ws_idx: usize,
        id: WindowId,
        float: Option<Rect>,
        screen: Rect,
    ) -> Wm {
        self.with_ws(ws_idx, self.workspaces[ws_idx as int].placed(id, float, screen))
    }

    /// A window is taken in on the workspace that rules name, or else on the
    /// active one.
    pub open spec fn housed(
        self,
        id: WindowId,
        float: Option<Rect>,
        workspace: Option<Seq<char>>,
    ) -> Wm {
        match workspace {
            None => self.entered(self.active_idx(), id, float, self.focused_rect()),
            Some(text) => if starts_with(text, "special:"@) {
                let ws_id = WsId::Special(after_prefix(text, "special:"@));
                let idx = index_of_id(self.workspaces, ws_id) as usize;
                let s = self.with_workspace(ws_id);
                let there = s.entered(idx, id, float, s.focused_rect());
                there.did(seq![there.hide_of(id)])
            } else {
                match target_named(text) {
                    None => self,
                    Some(t) => {
                        let idx = index_of_id(self.workspaces, t.id()) as usize;
                        let s = self.with_workspace(t.id());
                        let there = s.entered(idx, id, float, s.rect_on(s.target_monitor(idx)));
                        if idx == s.active_idx() {
                            there
                        } else {
                            there.did(seq![there.hide_of(id)]).switched(t.id())
                        }
                    },
                }
            },
        }
    }

    /// A new window is taken in; one without a size is ignored.
    pub open spec fn admitted(self, w: NewWin) -> Wm {
        let ruling = ruling_of(self.rules, w.app_name, w.app_bundle_id, w.title);
        let floats = match ruling.floating {
            Some(f) => f,
            None => floats_by_itself(w.subrole),
        };
        if w.width <= 0 || w.height <= 0 {
            self
        } else {
            Wm { registry: with_window(self.registry, w.as_known(floats)), ..self }.housed(
                w.id,
                w.float_in(floats, ruling.geometry),
                ruling.workspace,
            )
        }
    }

    /// A known window is gone.
    pub open spec fn window_gone(self, id: WindowId) -> Wm {
        let s = Wm { registry: without_window(self.registry, id), ..self }.forgot(id);
        match s.home_of(id) {
            Some(i) => s.with_ws(i, s.workspaces[i as int].closed(id)),
            None => s,
        }.laid_out()
    }

    /// A window was closed.
    pub open spec fn window_closed(self, id: WindowId) -> Wm {
        if knows(self.registry, id) {
            self.did(seq![Effect::DropBorder { id }]).window_gone(id)
        } else {
            self
        }
    }

    /// A window of an application that ended leaves its workspace.
    pub open spec fn window_dropped(self, id: WindowId) -> Wm {
        let s = self.forgot(id);
        match s.home_of(id) {
            Some(i) => s.with_ws(
                i,
                Ws {
                    floating: s.workspaces[i as int].floating.filter(is_float_of_other(id)),
                    tree: s.workspaces[i as int].tree.removed(id),
                    ..s.workspaces[i as int]
                },
            ),
            None => s,
        }
    }

    pub open spec fn windows_dropped(self, ids: Seq<WindowId>) -> Wm
        decreases ids.len(),
    {
        if ids.len() == 0 {
            self
        } else {
            self.windows_dropped(ids.drop_last()).window_dropped(ids.last())
        }
    }

    /// Workspaces whose focused window is gone forget that focus.
    pub open spec fn focus_dropped(self, ids: Seq<WindowId>) -> Wm {
        Wm {
            workspaces: Seq::new(
                self.workspaces.len(),
                |i: int|
                    if self.workspaces[i].focused is Some && ids.contains(
                        self.workspaces[i].focused->0,
                    ) {
                        self.workspaces[i].focus_popped()
                    } else {
                        self.workspaces[i]
                    },
            ),
            ..self
        }
    }

    /// An application ended.
    pub open spec fn app_ended(self, pid: i32) -> Wm {
        let ids = window_ids_of(self.registry.filter(of_app(pid)));
        let s = Wm {
            registry: self.registry.filter(of_other_app(pid)),
            ..self
        }.windows_dropped(ids);
        if ids.len() == 0 {
            s
        } else {
            s.focus_dropped(ids).laid_out()
        }
    }

    /// Whether any known window belongs to an application.
    pub open spec fn tracks(self, pid: i32) -> bool {
        exists|i: int| 0 <= i < self.registry.len() && (#[trigger] self.registry[i]).app_pid == pid
    }

    /// The window that an event announces, if it is one to take in: it can be
    /// managed, is not known yet, is not tiny, and is no nameless helper of an
    /// application that has windows already.
    pub open spec fn created_window(self, e: Event) -> Option<NewWin> {
        let title = match e.title {
            Some(t) => t,
            None => seq![],
        };
        let size = match e.size {
            Some(s) => s,
            None => (0i64, 0i64),
        };
        let position = match e.position {
            Some(p) => p,
            None => (0i64, 0i64),
        };
        if manageable(e.role, e.subrole) && e.id is Some && !knows(self.registry, e.id->0) && size.0
            >= MIN_CREATED_SIZE && size.1 >= MIN_CREATED_SIZE && !(title.len() == 0 && self.tracks(
            e.pid,
        )) {
            Some(
                NewWin {
                    id: e.id->0,
                    app_pid: e.pid,
                    app_name: e.app_name,
                    app_bundle_id: e.app_bundle,
                    title,
                    role: "AXWindow"@,
                    subrole: "AXStandardWindow"@,
                    x: position.0,
                    y: position.1,
                    width: size.0,
                    height: size.1,
                },
            )
        } else {
            None
        }
    }

    /// What is known of a window changes.
    pub open spec fn window_changed(self, id: WindowId, w: Win) -> Wm {
        Wm { registry: with_changed(self.registry, id, w), ..self }
    }

    /// A floating window is at another place.
    pub open spec fn float_seen_at(self, id: WindowId, geometry: Rect) -> Wm {
        match self.home_of(id) {
            Some(i) => self.with_ws(i, self.workspaces[i as int].float_placed(id, geometry)),
            None => self,
        }
    }

    /// The size that a floating window has in its workspace.
    pub open spec fn float_size(self, id: WindowId) -> (i64, i64) {
        match self.home_of(id) {
            Some(i) => match self.workspaces[i as int].float_rect(id) {
                Some(r) => (r.width, r.height),
                None => (0, 0),
            },
            None => (0, 0),
        }
    }

    /// A window was seen at another place. Windows that are hidden are ignored.
    pub open spec fn window_moved(self, id: WindowId, x: i64, y: i64) -> Wm {
        match window_of(self.registry, id) {
            Some(w) if !self.hides(id) => {
                let (width, height) = self.float_size(id);
                self.window_changed(id, Win { x, y, ..w }).float_seen_at(
                    id,
                    Rect { x, y, width, height },
                )
            },
            _ => self,
        }
    }

    /// A window was seen with another size. Windows that are hidden are ignored.
    pub open spec fn window_resized(self, id: WindowId, rect: Rect) -> Wm {
        if self.hides(id) {
            self
        } else {
            match window_of(self.registry, id) {
                Some(w) => self.window_changed(
                    id,
                    Win { x: rect.x, y: rect.y, width: rect.width, height: rect.height, ..w },
                ),
                None => self,
            }.float_seen_at(id, rect)
        }
    }

    /// What follows from an event of a window.
    pub open spec fn handled(self, e: Event) -> Wm {
        match (e.kind, e.id) {
            (WindowEventKind::Created, _) => match self.created_window(e) {
                Some(w) => self.admitted(w).later(Todo::Retile),
                None => self,
            },
            (WindowEventKind::Destroyed, Some(id)) => if knows(self.registry, id) {
                self.window_gone(id)
            } else {
                self
            },
            (WindowEventKind::FocusChanged, Some(id)) => match window_of(self.registry, id) {
                Some(w) => self.app_focus_adopted(w.app_pid, Some(id)),
                None => self,
            },
            (WindowEventKind::Moved, Some(id)) => match e.position {
                Some((x, y)) => self.window_moved(id, x, y),
                None => self,
            },
            (WindowEventKind::Resized, Some(id)) => match (e.position, e.size) {
                (Some((x, y)), Some((width, height))) => self.window_resized(
                    id,
                    Rect { x, y, width, height },
                ),
                _ => self,
            },
            (WindowEventKind::TitleChanged, Some(id)) => match (
                e.title,
                window_of(self.registry, id),
            ) {
                (Some(title), Some(w)) => self.window_changed(id, Win { title, ..w }),
                _ => self,
            },
            (WindowEventKind::Minimized, Some(id)) => match window_of(self.registry, id) {
                Some(w) => self.window_changed(id, Win { minimized: true, ..w }),
                None => self,
            },
            (WindowEventKind::Unminimized, Some(id)) => match window_of(self.registry, id) {
                Some(w) => self.window_changed(id, Win { minimized: false, ..w }),
                None => self,
            },
            _ => self,
        }
    }

    /// Whether handling an event takes a look at the focused monitor.
    pub open spec fn event_reads(self, e: Event) -> bool {
        match (e.kind, e.id) {
            (WindowEventKind::Created, _) => self.created_window(e) is Some,
            (WindowEventKind::FocusChanged, Some(id)) => match window_of(self.registry, id) {
                Some(w) => self.app_focus_reads(w.app_pid, Some(id)),
                None => false,
            },
            _ => false,
        }
    }

    /// Tasks behind the others.
    pub open spec fn all_later(self, tasks: Seq<Todo>) -> Wm {
        Wm { agenda: self.agenda + tasks, ..self }
    }

    /// Events wait to be handled; then windows that cannot be seen are hidden.
    pub open spec fn events_queued(self, events: Seq<Event>) -> Wm {
        self.all_later(Seq::new(events.len(), |i: int| Todo::Handle(events[i]))).later(
            Todo::HideUnseen,
        )
    }

    /// Windows that were found wait to be taken in, those that are known only
    /// if `again` is set.
    pub open spec fn admissions_queued(self, windows: Seq<NewWin>, again: bool) -> Wm {
        self.all_later(
            Seq::new(windows.len(), |i: int| Todo::Admit { window: windows[i], again }),
        )
    }

    /// Whether some window is not known.
    pub open spec fn has_stranger(self, windows: Seq<NewWin>) -> bool {
        exists|i: int|
            0 <= i < windows.len() && !knows(self.registry, (#[trigger] windows[i]).id)
    }

    /// Windows of an application were found; those that are not known are taken
    /// in, and if there are any, the layout follows.
    pub open spec fn windows_found(self, windows: Seq<NewWin>, settle: bool) -> Wm {
        let s = self.admissions_queued(windows, false);
        if self.has_stranger(windows) {
            s.later(
                if settle {
                    Todo::Retile
                } else {
                    Todo::Layout
                },
            )
        } else {
            s
        }
    }
}

pub open spec fn window_ids_of(s: Seq<Win>) -> Seq<WindowId> {
    Seq::new(s.len(), |i: int| s[i].id)
}

pub open spec fn new_views(s: Seq<NewWindow>) -> Seq<NewWin> {
    Seq::new(s.len(), |i: int| s[i]@)
}

pub open spec fn event_views(s: Seq<WindowEvent>) -> Seq<Event> {
    Seq::new(s.len(), |i: int| s[i]@)
}

fn apply_rules(rules: &Vec<WindowRule>, app: &str, bundle: &str, title: &str) -> (r: (
    Option<bool>,
    Option<String>,
    Option<RuleGeometry>,
))
    ensures
        r.0 == ruling_of(rule_views(rules@), app@, bundle@, title@).floating,
        opt_view(r.1) == ruling_of(rule_views(rules@), app@, bundle@, title@).workspace,
        r.2 == ruling_of(rule_views(rules@), app@, bundle@, title@).geometry,
{
    let mut floating: Option<bool> = None;
    let mut workspace: Option<String> = None;
    let mut geometry: Option<RuleGeometry> = None;
    let ghost all = rule_views(rules@);
    let ghost p = sets_floating(app@, bundle@, title@);
    let ghost q = sets_workspace(app@, bundle@, title@);
    let ghost g = sets_geometry(app@, bundle@, title@);
    let mut i: usize = 0;
    proof {
        assert forall|k: int| !last_holds(all.take(0), p, k) by {}
        assert forall|k: int| !last_holds(all.take(0), q, k) by {}
        assert forall|k: int| !last_holds(all.take(0), g, k) by {}
    }
    while i < rules.len()
        invariant
            all == rule_views(rules@),
            p == sets_floating(app@, bundle@, title@),
            q == sets_workspace(app@, bundle@, title@),
            g == sets_geometry(app@, bundle@, title@),
            i <= rules@.len(),
            floating == ruling_of(all.take(i as int), app@, bundle@, title@).floating,
            opt_view(workspace) == ruling_of(all.take(i as int), app@, bundle@, title@).workspace,
            geometry == ruling_of(all.take(i as int), app@, bundle@, title@).geometry,
        decreases rules.len() - i,
    {
        let ghost now = all.take(i as int);
        proof {
            assert(all.take(i + 1) =~= now.push(rules@[i as int]@));
            lemma_last_where_push(now, p, rules@[i as int]@);
            lemma_last_where_push(now, q, rules@[i as int]@);
            lemma_last_where_push(now, g, rules@[i as int]@);
        }
        let rule = &rules[i];
        if rule.matches_window(app, bundle, title) {
            if rule.floating.is_some() {
                floating = rule.floating;
            }
            if rule.workspace.is_some() {
                workspace = copy_opt(&rule.workspace);
            }
            if rule.geometry.is_some() {
                geometry = rule.geometry;
            }
        }
        i = i + 1;
    }
    assert(all.take(all.len() as int) =~= all);
    (floating, workspace, geometry)
}

spec fn last_holds(s: Seq<Rule>, p: spec_fn(Rule) -> bool, k: int) -> bool {
    crate::seqs::is_last_where(s, p, k)
}

impl WmState {
    /// Puts a window into a workspace.
    fn enter(&mut self, ws_idx: usize, id: WindowId, float: Option<Rect>, screen: Rect)
        requires
            old(self)@.ready(),
            ws_idx < old(self)@.workspaces.len(),
        ensures
            final(self)@ == old(self)@.entered(ws_idx, id, float, screen),
            final(self)@.ready(),
            final(self)@.workspaces.len() == old(self)@.workspaces.len(),
    {
        self.workspaces.get_mut(ws_idx).place_window(id, float, screen);
    }

    fn house(&mut self, id: WindowId, float: Option<Rect>, workspace: &Option<String>)
        requires
            old(self)@.ready(),
        ensures
            final(self)@ == old(self)@.housed(id, float, opt_view(*workspace)),
            final(self)@.sound(),
            old(self)@.ready() ==> final(self)@.ready(),
            final(self)@.workspaces.len() >= old(self)@.workspaces.len(),
    {
        let text = match workspace {
            Some(t) => t,
            None => {
                let screen: Rect = self.focused_rect();
                let idx: usize = self.active_ws_idx();
                self.enter(idx, id, float, screen);
                return ;
            },
        };
        if let Some(name) = strip_prefix(text.as_str(), "special:") {
            let idx: usize = self.ensure_workspace(WorkspaceId::Special(name));
            let screen: Rect = self.focused_rect();
            self.enter(idx, id, float, screen);
            self.hide_window(id);
        } else if let Some(target) = WorkspaceTarget::parse(text.as_str()) {
            let idx: usize = self.workspace_index_for_target(&target);
            let mi: usize = self.monitor_of_target(idx);
            let screen: Rect = self.monitor_rect(mi);
            let is_active: bool = idx == self.active_ws_idx();
            self.enter(idx, id, float, screen);
            if !is_active {
                self.hide_window(id);
                self.switch_workspace(&target);
            }
        }
    }

    /// Takes a new window in.
    pub fn add_window_to_active(&mut self, window: &NewWindow)
        requires
            old(self)@.sound(),
            window.width > 0 && window.height > 0 ==> old(self)@.ready(),
        ensures
            final(self)@ == old(self)@.admitted(window@),
            final(self)@.sound(),
            old(self)@.ready() ==> final(self)@.ready(),
            final(self)@.workspaces.len() >= old(self)@.workspaces.len(),
    {
        if window.width <= 0 || window.height <= 0 {
            return ;
        }
        let (rule_float, rule_workspace, rule_geometry) = apply_rules(
            &self.rules,
            window.app_name.as_str(),
            window.app_bundle_id.as_str(),
            window.title.as_str(),
        );
        let floats: bool = match rule_float {
            Some(f) => f,
            None => should_auto_float(window.subrole.as_str()),
        };
        let known = WindowState {
            id: window.id,
            app_pid: window.app_pid,
            app_name: copy(window.app_name.as_str()),
            app_bundle_id: copy(window.app_bundle_id.as_str()),
            title: copy(window.title.as_str()),
            role: copy(window.role.as_str()),
            subrole: copy(window.subrole.as_str()),
            x: window.x,
            y: window.y,
            width: window.width,
            height: window.height,
            floating: floats,
            minimized: false,
        };
        assert(known@ == window@.as_known(floats));
        self.registry.add(known);
        let float: Option<Rect> = if floats {
            Some(
                match rule_geometry {
                    Some((x, y, width, height)) => Rect::new(x, y, width, height),
                    None => Rect::new(window.x, window.y, window.width, window.height),
                },
            )
        } else {
            None
        };
        self.house(window.id, float, &rule_workspace);
    }

    fn forget_window(&mut self, id: WindowId)
        requires
            old(self)@.sound(),
        ensures
            final(self)@ == old(self)@.window_gone(id),
            final(self)@.sound(),
            old(self)@.ready() ==> final(self)@.ready(),
            final(self)@.workspaces.len() == old(self)@.workspaces.len(),
    {
        let _ = self.registry.remove(id);
        self.prune_focus_memory_for_window(id);
        if let Some(ws_idx) = self.workspaces.find_window(id) {
            self.workspaces.get_mut(ws_idx).close_window(id);
        }
        self.apply_layout();
    }

    /// Forgets a window that was closed.
    pub fn on_window_closed(&mut self, wid: u32)
        requires
            old(self)@.sound(),
        ensures
            final(self)@ == old(self)@.window_closed(wid),
            final(self)@.sound(),
            old(self)@.ready() ==> final(self)@.ready(),
    {
        if !self.registry.contains(wid) {
            return ;
        }
        self.emit(Effect::DropBorder { id: wid });
        self.forget_window(wid);
    }

    fn drop_window(&mut self, id: WindowId)
        requires
            old(self)@.sound(),
        ensures
            final(self)@ == old(self)@.window_dropped(id),
            final(self)@.sound(),
            final(self)@.workspaces.len() == old(self)@.workspaces.len(),
    {
        self.prune_focus_memory_for_window(id);
        if let Some(ws_idx) = self.workspaces.find_window(id) {
            self.workspaces.get_mut(ws_idx).discard_window(id);
        }
    }

    fn drop_focus(&mut self, ids: &Vec<WindowId>)
        requires
            old(self)@.sound(),
        ensures
            final(self)@ == old(self)@.focus_dropped(ids@),
            final(self)@.sound(),
    {
        let ghost before = self@;
        let ghost after = self@.focus_dropped(ids@);
        let n: usize = self.workspaces.count();
        let mut i: usize = 0;
        while i < n
            invariant
                i <= n,
                n == before.workspaces.len(),
                after == before.focus_dropped(ids@),
                self@.workspaces.len() == n,
                forall|j: int|
                    0 <= j < n ==> #[trigger] self@.workspaces[j] == if j < i {
                        after.workspaces[j]
                    } else {
                        before.workspaces[j]
                    },
                self@ == (Wm { workspaces: self@.workspaces, ..before }),
            decreases n - i,
        {
            let gone: bool = match self.workspaces.get(i).focused {
                Some(f) => position_u32(ids, f).is_some(),
                None => false,
            };
            if gone {
                let _ = self.workspaces.get_mut(i).pop_focus();
            }
            i = i + 1;
        }
        assert(self@.workspaces =~= after.workspaces);
    }

    /// Forgets the windows of an application that ended.
    pub fn on_app_terminated(&mut self, pid: i32)
        requires
            old(self)@.sound(),
        ensures
            final(self)@ == old(self)@.app_ended(pid),
            final(self)@.sound(),
    {
        let removed = self.registry.remove_by_pid(pid);
        let ghost gone = Seq::new(removed@.len(), |i: int| removed@[i]@);
        let ghost all = window_ids_of(gone);
        let ghost start = self@;
        let mut ids: Vec<WindowId> = Vec::new();
        let mut i: usize = 0;
        while i < removed.len()
            invariant
                gone == Seq::new(removed@.len(), |i: int| removed@[i]@),
                all == window_ids_of(gone),
                start.sound(),
                i <= removed@.len(),
                ids@ == all.take(i as int),
                self@ == start.windows_dropped(all.take(i as int)),
                self@.sound(),
            decreases removed.len() - i,
        {
            let id: WindowId = removed[i].id;
            proof {
                assert(gone[i as int] == removed@[i as int]@);
                assert(all.take(i + 1).drop_last() =~= all.take(i as int));
                assert(all.take(i + 1).last() == id);
                assert(all.take(i + 1) =~= all.take(i as int).push(id));
            }
            self.drop_window(id);
            ids.push(id);
            i = i + 1;
        }
        assert(all.take(all.len() as int) =~= all);
        if ids.len() > 0 {
            self.drop_focus(&ids);
            self.apply_layout();
        }
    }

    fn find_created(&self, e: &WindowEvent) -> (r: Option<NewWindow>)
        ensures
            match r {
                Some(w) => self@.created_window(e@) == Some(w@),
                None => self@.created_window(e@) is None,
            },
    {
        if !is_manageable_window(&e.role, &e.subrole) {
            return None;
        }
        let id: WindowId = match e.id {
            Some(id) => id,
            None => {
                return None;
            },
        };
        if self.registry.contains(id) {
            return None;
        }
        let title: String = match &e.title {
            Some(t) => copy(t.as_str()),
            None => String::new(),
        };
        let (x, y) = match e.position {
            Some((px, py)) => (px, py),
            None => (0, 0),
        };
        let (width, height) = match e.size {
            Some((w, h)) => (w, h),
            None => (0, 0),
        };
        if width < MIN_CREATED_SIZE || height < MIN_CREATED_SIZE {
            return None;
        }
        if title.as_str().is_empty() && self.registry.has_app(e.pid) {
            return None;
        }
        let w = NewWindow {
            id,
            app_pid: e.pid,
            app_name: copy(e.app_name.as_str()),
            app_bundle_id: copy(e.app_bundle.as_str()),
            title,
            role: copy("AXWindow"),
            subrole: copy("AXStandardWindow"),
            x,
            y,
            width,
            height,
        };
        assert(e@.title is None ==> title@ =~= seq![]);
        Some(w)
    }

    fn see_float_at(&mut self, id: WindowId, geometry: Rect)
        requires
            old(self)@.sound(),
        ensures
            final(self)@ == old(self)@.float_seen_at(id, geometry),
            final(self)@.sound(),
            old(self)@.ready() ==> final(self)@.ready(),
            final(self)@.workspaces.len() == old(self)@.workspaces.len(),
    {
        if let Some(ws_idx) = self.workspaces.find_window(id) {
            self.workspaces.get_mut(ws_idx).place_floating(id, geometry);
        }
    }

    fn see_window_moved(&mut self, id: WindowId, x: i64, y: i64)
        requires
            old(self)@.sound(),
        ensures
            final(self)@ == old(self)@.window_moved(id, x, y),
            final(self)@.sound(),
            old(self)@.ready() ==> final(self)@.ready(),
            final(self)@.workspaces.len() == old(self)@.workspaces.len(),
    {
        let (width, height) = match self.registry.get(id) {
            Some(w) => (w.width, w.height),
            None => {
                return ;
            },
        };
        if self.is_window_hidden(id) {
            return ;
        }
        let size: (i64, i64) = match self.workspaces.find_window(id) {
            Some(ws_idx) => match self.workspaces.get(ws_idx).floating_rect(id) {
                Some(r) => (r.width, r.height),
                None => (0, 0),
            },
            None => (0, 0),
        };
        assert(size == self@.float_size(id));
        self.registry.update_geometry(id, x, y, width, height);
        self.see_float_at(id, Rect { x, y, width: size.0, height: size.1 });
    }

    fn see_window_resized(&mut self, id: WindowId, rect: Rect)
        requires
            old(self)@.sound(),
        ensures
            final(self)@ == old(self)@.window_resized(id, rect),
            final(self)@.sound(),
            old(self)@.ready() ==> final(self)@.ready(),
            final(self)@.workspaces.len() == old(self)@.workspaces.len(),
    {
        if self.is_window_hidden(id) {
            return ;
        }
        self.registry.update_geometry(id, rect.x, rect.y, rect.width, rect.height);
        self.see_float_at(id, rect);
    }

    /// Handles what happened to a window.
    pub fn handle_event(&mut self, event: &WindowEvent)
        requires
            old(self)@.sound(),
            old(self)@.event_reads(event@) ==> old(self)@.ready(),
        ensures
            final(self)@ == old(self)@.handled(event@),
            final(self)@.sound(),
            old(self)@.ready() ==> final(self)@.ready(),
            final(self)@.workspaces.len() >= old(self)@.workspaces.len(),
    {
        if event.kind == WindowEventKind::Created {
            if let Some(w) = self.find_created(event) {
                self.add_window_to_active(&w);
                self.add_task(Task::Retile);
            }
            return ;
        }
        let id: WindowId = match event.id {
            Some(id) => id,
            None => {
                return ;
            },
        };
        match event.kind {
            WindowEventKind::Created => {},
            WindowEventKind::Destroyed => {
                if self.registry.contains(id) {
                    self.forget_window(id);
                }
            },
            WindowEventKind::FocusChanged => {
                let pid: i32 = match self.registry.get(id) {
                    Some(w) => w.app_pid,
                    None => {
                        return ;
                    },
                };
                self.adopt_external_app_focus(pid, Some(id));
            },
            WindowEventKind::Moved => {
                if let Some((x, y)) = event.position {
                    self.see_window_moved(id, x, y);
                }
            },
            WindowEventKind::Resized => {
                if let Some((x, y)) = event.position {
                    if let Some((width, height)) = event.size {
                        self.see_window_resized(id, Rect { x, y, width, height });
                    }
                }
            },
            WindowEventKind::TitleChanged => {
                if let Some(title) = &event.title {
                    self.registry.update_title(id, copy(title.as_str()));
                }
            },
            WindowEventKind::Minimized => {
                self.registry.set_minimized(id, true);
            },
            WindowEventKind::Unminimized => {
                self.registry.set_minimized(id, false);
            },
        }
    }

    /// Lets events wait to be handled one by one.
    pub fn process_events(&mut self, events: Vec<WindowEvent>)
        requires
            old(self)@.sound(),
        ensures
            final(self)@ == old(self)@.events_queued(event_views(events@)),
            final(self)@.sound(),
            old(self)@.ready() ==> final(self)@.ready(),
    {
        let ghost before = self@;
        let ghost all = event_views(events@);
        let mut rest = events;
        let mut tasks: Vec<Task> = Vec::new();
        while rest.len() > 0
            invariant
                all.len() == tasks@.len() + rest@.len(),
                forall|i: int|
                    0 <= i < tasks@.len() ==> (#[trigger] tasks@[i])@ == Todo::Handle(all[i]),
                forall|i: int| 0 <= i < rest@.len() ==> (#[trigger] rest@[i])@ == all[tasks@.len() + i],
            decreases rest.len(),
        {
            let e = rest.remove(0);
            tasks.push(Task::Handle(e));
        }
        self.agenda.append(&mut tasks);
        assert(self@.agenda =~= before.agenda + Seq::new(all.len(), |i: int| Todo::Handle(all[i])));
        self.add_task(Task::HideUnseen);
    }

    /// Lets windows wait to be taken in one by one.
    pub fn queue_admissions(&mut self, windows: Vec<NewWindow>, again: bool)
        requires
            old(self)@.sound(),
        ensures
            final(self)@ == old(self)@.admissions_queued(new_views(windows@), again),
            final(self)@.sound(),
            old(self)@.ready() ==> final(self)@.ready(),
    {
        let ghost before = self@;
        let ghost all = new_views(windows@);
        let mut rest = windows;
        let mut tasks: Vec<Task> = Vec::new();
        while rest.len() > 0
            invariant
                all.len() == tasks@.len() + rest@.len(),
                forall|i: int|
                    0 <= i < tasks@.len() ==> (#[trigger] tasks@[i])@ == (Todo::Admit {
                        window: all[i],
                        again,
                    }),
                forall|i: int| 0 <= i < rest@.len() ==> (#[trigger] rest@[i])@ == all[tasks@.len() + i],
            decreases rest.len(),
        {
            let window = rest.remove(0);
            tasks.push(Task::Admit { window, again });
        }
        self.agenda.append(&mut tasks);
        assert(self@.agenda =~= before.agenda + Seq::new(
            all.len(),
            |i: int| Todo::Admit { window: all[i], again },
        ));
    }

    /// Whether the windows of an application have to be looked for when one of
    /// them appears: not if it is observed and has windows here already.
    pub fn on_new_window_detected(&self, pid: i32, observed: bool) -> (r: bool)
        ensures
            r == !(self@.tracks(pid) && observed),
    {
        let has_windows: bool = self.registry.has_app(pid);
        assert(self.registry@ == self@.registry);
        !(has_windows && observed)
    }

    fn any_stranger(&self, windows: &Vec<NewWindow>) -> (r: bool)
        ensures
            r == self@.has_stranger(new_views(windows@)),
    {
        let ghost all = new_views(windows@);
        let mut i: usize = 0;
        while i < windows.len()
            invariant
                all == new_views(windows@),
                i <= windows@.len(),
                forall|j: int| 0 <= j < i ==> knows(self@.registry, (#[trigger] all[j]).id),
            decreases windows.len() - i,
        {
            assert(all[i as int] == windows@[i as int]@);
            if !self.registry.contains(windows[i].id) {
                return true;
            }
            i = i + 1;
        }
        false
    }

    /// Takes in windows that were found; with `settle` the layout makes room
    /// for large ones.
    pub fn on_windows_found(&mut self, windows: Vec<NewWindow>, settle: bool)
        requires
            old(self)@.sound(),
        ensures
            final(self)@ == old(self)@.windows_found(new_views(windows@), settle),
            final(self)@.sound(),
            old(self)@.ready() ==> final(self)@.ready(),
    {
        let added: bool = self.any_stranger(&windows);
        self.queue_admissions(windows, false);
        if added {
            if settle {
                self.add_task(Task::Retile);
            } else {
                self.add_task(Task::Layout);
            }
        }
    }

    /// Takes in the windows of an application that was launched.
    pub fn on_app_launched(&mut self, windows: Vec<NewWindow>)
        requires
            old(self)@.sound(),
        ensures
            final(self)@ == old(self)@.windows_found(new_views(windows@), false),
            final(self)@.sound(),
            old(self)@.ready() ==> final(self)@.ready(),
    {
        self.on_windows_found(windows, false);
    }
}

} // verus!
