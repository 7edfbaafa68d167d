//! Switching between workspaces and monitors, and moving windows between them.
use vstd::prelude::*;
use crate::config::special::{
    default_overlay, is_overlay_of, overlay_views, Overlay, SpecialWorkspaceConfig,
};
use crate::seqs::{
    first_where, greater_key, lemma_first_where, lemma_first_where_none, lemma_position, position,
    remove_all_u32, sort_slot, sorted, without,
};
use crate::text::{copy, same};
use crate::wm::adjacency::find_rect;
use crate::wm::effects::{fits_of, float_geometries, float_rects, lifts_of, shows_above_of, Effect};
use crate::wm::focus::is_echo;
use crate::wm::geometry::{fit, fit_i64, floor_div, share, Rect};
use crate::wm::monitor::{next_index, prev_index, ring_next, ring_prev, Monitor};
use crate::wm::state::{Fix, FixJob, Target, TargetJob, Task, Todo, Wm, WmState};
use crate::wm::window::WindowId;
use crate::wm::workspace::{
    index_of_id, law_workspace_by_name, with_id, WorkspaceId, WorkspaceTarget, Ws, WsId,
};

verus! {

/// The workspaces that the first `n` monitors show, behind some others, from the
/// last monitor to the first and each once.
pub open spec fn shown_workspaces(monitors: Seq<Monitor>, n: int, listed: Seq<usize>) -> Seq<usize>
    decreases n,
{
    if n <= 0 {
        listed
    } else {
        let ws_idx = monitors[n - 1].active_workspace;
        shown_workspaces(
            monitors,
            n - 1,
            if listed.contains(ws_idx) {
                listed
            } else {
                listed.push(ws_idx)
            },
        )
    }
}

/// Where a window floats that comes to another screen.
pub open spec fn arrival_rect(screen: Rect) -> Rect {
    Rect {
        x: fit(screen.x + 50_000),
        y: fit(screen.y + 50_000),
        width: 800_000,
        height: 600_000,
    }
}

pub fn arrival_geometry(screen: &Rect) -> (r: Rect)
    ensures
        r == arrival_rect(*screen),
{
    Rect::new(
        fit_i64(screen.x as i128 + 50_000),
        fit_i64(screen.y as i128 + 50_000),
        800_000,
        600_000,
    )
}

/// The part of a screen that an overlay covers.
pub open spec fn overlay_rect(screen: Rect, overlay: Overlay) -> Rect {
    let width = fit(screen.width * overlay.width / 1000);
    let height = fit(screen.height * overlay.height / 1000);
    Rect {
        x: fit(screen.x + (screen.width - width) / 2),
        y: if overlay.position == "top"@ {
            screen.y
        } else if overlay.position == "bottom"@ {
            fit(screen.y + screen.height - height)
        } else {
            fit(screen.y + (screen.height - height) / 2)
        },
        width,
        height,
    }
}

pub fn overlay_geometry(screen: &Rect, config: &SpecialWorkspaceConfig) -> (r: Rect)
    ensures
        r == overlay_rect(*screen, config@),
{
    let width: i64 = share(screen.width, config.width);
    let height: i64 = share(screen.height, config.height);
    let x: i64 = fit_i64(
        screen.x as i128 + floor_div(screen.width as i128 - width as i128, 2),
    );
    let y: i64 = if same(config.position.as_str(), "top") {
        screen.y
    } else if same(config.position.as_str(), "bottom") {
        fit_i64(screen.y as i128 + screen.height as i128 - height as i128)
    } else {
        fit_i64(screen.y as i128 + floor_div(screen.height as i128 - height as i128, 2))
    };
    Rect::new(x, y, width, height)
}

/// The regular workspaces in the order of their indices.
pub open spec fn targets_of(s: Seq<Ws>) -> Seq<WorkspaceTarget>
    decreases s.len(),
{
    if s.len() == 0 {
        seq![]
    } else {
        match s.last().id.target() {
            Some(t) => targets_of(s.drop_last()).push(t),
            None => targets_of(s.drop_last()),
        }
    }
}

/// Numbers come before letters.
pub open spec fn target_key() -> spec_fn(WorkspaceTarget) -> int {
    |t: WorkspaceTarget|
        match t {
            WorkspaceTarget::Numbered(n) => n as int,
            WorkspaceTarget::Lettered(c) => 1000 + c as int,
        }
}

/// The regular workspaces by number, then by letter.
pub open spec fn ordered_targets(s: Seq<Ws>) -> Seq<WorkspaceTarget> {
    sorted(targets_of(s), greater_key(target_key()))
}

fn key_of(t: &WorkspaceTarget) -> (r: u32)
    ensures
        r == target_key()(*t),
{
    match t {
        WorkspaceTarget::Numbered(n) => *n as u32,
        WorkspaceTarget::Lettered(c) => 1000 + *c as u32,
    }
}

fn sort_targets(targets: &Vec<WorkspaceTarget>) -> (r: Vec<WorkspaceTarget>)
    ensures
        r@ == sorted(targets@, greater_key(target_key())),
        r@.len() == targets@.len(),
{
    let ghost gt = greater_key(target_key());
    let mut list: Vec<WorkspaceTarget> = Vec::new();
    let mut i: usize = 0;
    while i < targets.len()
        invariant
            gt == greater_key(target_key()),
            i <= targets@.len(),
            list@ == sorted(targets@.take(i as int), gt),
            list@.len() == i,
        decreases targets.len() - i,
    {
        let t: WorkspaceTarget = targets[i];
        let ghost now = targets@.take(i + 1);
        assert(now.drop_last() =~= targets@.take(i as int));
        assert(now.last() == t);
        let mut slot: usize = list.len();
        assert(list@.take(slot as int) =~= list@);
        while slot > 0
            invariant_except_break
                gt == greater_key(target_key()),
                slot <= list@.len(),
                sort_slot(list@, gt, t) == sort_slot(list@.take(slot as int), gt, t),
            ensures
                slot <= list@.len(),
                slot == sort_slot(list@, gt, t),
            decreases slot,
        {
            if key_of(&list[slot - 1]) <= key_of(&t) {
                break;
            }
            assert(list@.take(slot as int).drop_last() =~= list@.take(slot - 1));
            slot = slot - 1;
        }
        list.insert(slot, t);
        i = i + 1;
    }
    assert(targets@.take(targets@.len() as int) =~= targets@);
    list
}

/// The neighbour of a workspace in a ring of them, if it is one of them.
pub open spec fn neighbour_target(
    targets: Seq<WorkspaceTarget>,
    current: WorkspaceTarget,
    forward: bool,
) -> Option<WorkspaceTarget> {
    match position(targets, current) {
        Some(i) => Some(
            targets[if forward {
                ring_next(targets.len() as int, i)
            } else {
                ring_prev(targets.len() as int, i)
            }],
        ),
        None => None,
    }
}

impl Wm {
    /// Makes room for large windows on every monitor.
    pub open spec fn fix_started(self) -> Wm {
        self.did(seq![Effect::Pause { ms: 100 }]).later(
            Todo::FixVisible(
                Fix {
                    todo: shown_workspaces(self.monitors, self.monitors.len() as int, seq![]),
                    settled: seq![],
                    floating: false,
                },
            ),
        )
    }

    /// Makes room for a window on a workspace, if a monitor shows it.
    pub open spec fn target_fix_started(self, ws_idx: usize, moved: WindowId) -> Wm {
        if self.showing(ws_idx) is Some {
            self.did(seq![Effect::Pause { ms: 100 }]).later(
                Todo::FixTarget(Target { ws_idx, moved, checked: false, settled: seq![] }),
            )
        } else {
            self
        }
    }

    /// A workspace exists.
    pub open spec fn with_workspace(self, id: WsId) -> Wm {
        Wm { workspaces: with_id(self.workspaces, id), ..self }
    }

    /// The focused window of a workspace gets the focus, and the mouse goes to
    /// it; on a workspace without one the mouse goes to the middle.
    pub open spec fn arrived(self, ws_idx: usize) -> Wm {
        match self.workspaces[ws_idx as int].focused {
            Some(w) => {
                let s = self.focused_on(w, true);
                if s.mouse_follows_focus {
                    let screen = s.focused_rect();
                    Wm {
                        hovered: Some(w),
                        ..s.warped(s.tile_or(s.focus_tiles(ws_idx, screen), w, screen))
                    }
                } else {
                    s
                }
            },
            None => if self.mouse_follows_focus {
                self.warped(self.focused_rect())
            } else {
                self
            },
        }
    }

    /// The monitor on which a workspace is shown that no monitor shows: the one
    /// it prefers, or, if it has windows, the one that showed it last, or else
    /// the focused one.
    pub open spec fn monitor_for(self, ws_idx: usize) -> usize {
        let ws = self.workspaces[ws_idx as int];
        match self.preferred_monitor(ws_idx) {
            Some(mi) => mi,
            None => match ws.last_monitor {
                Some(mi) if !ws.has_no_windows() && mi < self.monitors.len() => mi,
                _ => self.focused_monitor,
            },
        }
    }

    /// A monitor shows a workspace in place of the one that it showed.
    pub open spec fn shown_on(self, ws_idx: usize, mi: usize) -> Wm {
        let displaced = self.monitors[mi as int].active_workspace;
        let before = self.workspaces[displaced as int];
        let left = self.did(self.hides_on(before.window_ids(), mi)).with_ws(
            displaced,
            if before.has_no_windows() {
                Ws { last_monitor: None, ..before }
            } else {
                before
            },
        );
        Wm {
            monitors: left.monitors.update(
                mi as int,
                Monitor { active_workspace: ws_idx, ..left.monitors[mi as int] },
            ),
            workspaces: left.workspaces.update(
                ws_idx as int,
                Ws {
                    last_monitor: Some(mi),
                    last_display_id: Some(left.monitors[mi as int].id),
                    ..left.workspaces[ws_idx as int]
                },
            ),
            focused_monitor: mi,
            ..left
        }.visibility_synced()
    }

    /// A workspace becomes the active one: on the monitor that shows it, or
    /// else on the one that is for it.
    pub open spec fn switched(self, id: WsId) -> Wm {
        let idx = index_of_id(self.workspaces, id) as usize;
        let s = self.with_workspace(id);
        if idx == s.active_idx() {
            s
        } else {
            let quiet = s.silenced();
            match quiet.showing(idx) {
                Some(mi) => Wm { focused_monitor: mi, hovered: None, ..quiet }.arrived(idx),
                None => quiet.shown_on(idx, quiet.monitor_for(idx)).laid_out_twice().fix_started(
                ).later(Todo::FinishSwitch { ws_idx: idx }),
            }
        }
    }

    /// A switch comes to its end once the windows are in place.
    pub open spec fn switch_finished(self, ws_idx: usize) -> Wm {
        Wm { hovered: None, ..self }.arrived(ws_idx)
    }

    /// The workspace beside the active one becomes the active one.
    pub open spec fn stepped(self, forward: bool) -> Wm {
        match self.active().id.target() {
            Some(current) => match neighbour_target(
                ordered_targets(self.workspaces),
                current,
                forward,
            ) {
                Some(t) => self.switched(t.id()),
                None => self,
            },
            None => self,
        }
    }

    /// Each monitor has a place for an overlay.
    pub open spec fn specials_padded(self) -> Wm {
        let n = self.specials.len();
        Wm {
            specials: Seq::new(
                if n < self.monitors.len() { self.monitors.len() } else { n },
                |i: int| if i < n { self.specials[i] } else { None },
            ),
            ..self
        }
    }

    /// The overlay of a name.
    pub open spec fn overlay_named(self, name: Seq<char>) -> Overlay {
        match first_where(self.overlays, is_overlay_of(name)) {
            Some(i) => self.overlays[i],
            None => default_overlay(name),
        }
    }

    /// A special workspace is laid over a monitor.
    pub open spec fn special_shown(self, mi: usize, ws_idx: usize, name: Seq<char>) -> Wm {
        let s = Wm {
            specials: self.specials.update(mi as int, Some(ws_idx)),
            workspaces: self.workspaces.update(
                ws_idx as int,
                Ws { last_monitor: Some(mi), ..self.workspaces[ws_idx as int] },
            ),
            ..self
        }.visibility_synced();
        let ws = s.workspaces[ws_idx as int];
        let tiles = s.tiles(ws_idx, overlay_rect(s.rect_on(mi), s.overlay_named(name)));
        let target = match ws.focused {
            Some(w) => Some(w),
            None => if tiles.len() > 0 { Some(tiles[0].0) } else { None },
        };
        let shown = s.did(shows_above_of(tiles) + shows_above_of(float_geometries(ws.floating)));
        if ws.tree.windows().len() == 0 && ws.floating.len() == 0 {
            s
        } else {
            match target {
                Some(w) => shown.focused_on(w, true),
                None => shown,
            }
        }
    }

    /// A special workspace is laid over the focused monitor, or put away if it
    /// is there.
    pub open spec fn special_toggled(self, name: Seq<char>) -> Wm {
        let idx = index_of_id(self.workspaces, WsId::Special(name)) as usize;
        let s = self.with_workspace(WsId::Special(name)).specials_padded();
        let mi = s.focused_monitor;
        let bare = s.special_dismissed(mi);
        if s.specials[mi as int] == Some(idx) {
            bare.focus_active()
        } else {
            bare.special_shown(mi, idx, name)
        }
    }

    /// The focused window of the active workspace gets the focus.
    pub open spec fn focus_active(self) -> Wm {
        match self.active().focused {
            Some(w) => self.focused_on(w, true),
            None => self,
        }
    }

    /// A window goes from one workspace to another one; a floating window
    /// floats there too.
    pub open spec fn moved(self, id: WindowId, from: usize, to: usize, screen: Rect) -> Wm {
        let ws = self.workspaces[from as int];
        let left = self.with_ws(from, ws.taken(id));
        left.with_ws(
            to,
            left.workspaces[to as int].placed(
                id,
                if ws.floats(id) { Some(arrival_rect(screen)) } else { None },
                screen,
            ),
        )
    }

    /// The focused window goes to a special workspace.
    pub open spec fn moved_to_special(self, name: Seq<char>) -> Wm {
        let from = self.active_idx();
        let to = index_of_id(self.workspaces, WsId::Special(name)) as usize;
        match self.active().focused {
            None => self,
            Some(w) => {
                let s = self.with_workspace(WsId::Special(name));
                if from == to {
                    s
                } else {
                    let there = s.moved(w, from, to, s.focused_rect()).specials_padded();
                    let seen = there.specials[there.focused_monitor as int] == Some(to);
                    there.did(
                        if seen {
                            lifts_of(there.workspaces[to as int].floating)
                        } else {
                            seq![there.hide_of(w)]
                        },
                    ).laid_out().focus_active()
                }
            },
        }
    }

    /// The overlay from which a window is taken is put away.
    pub open spec fn special_left(self, mi: usize, ws_idx: usize, w: WindowId) -> Wm {
        if self.special_on(mi) == Some(ws_idx) {
            let s = Wm {
                specials: self.specials.update(mi as int, None),
                ..self
            }.visibility_synced();
            s.did(s.hides_of(without(s.workspaces[ws_idx as int].window_ids(), w)))
        } else {
            self
        }
    }

    /// The monitor of a workspace to which a window is sent.
    pub open spec fn target_monitor(self, ws_idx: usize) -> usize {
        match self.showing(ws_idx) {
            Some(mi) => mi,
            None => match self.preferred_monitor(ws_idx) {
                Some(mi) => mi,
                None => self.focused_monitor,
            },
        }
    }

    /// A window that was moved to a workspace of a monitor is shown or hidden
    /// there.
    pub open spec fn sent_off(self, w: WindowId, to: usize, mi: usize, floats: bool) -> Wm {
        let kept = self.with_ws(
            to,
            Ws {
                last_monitor: Some(mi),
                last_display_id: Some(self.monitors[mi as int].id),
                ..self.workspaces[to as int]
            },
        );
        let seen = if kept.is_visible(to) {
            kept
        } else {
            kept.did(seq![kept.hide_of(w)])
        };
        let done = seen.laid_out_twice();
        (if floats {
            done
        } else {
            done.target_fix_started(to, w)
        }).later(Todo::FocusActive)
    }

    /// The focused window goes to a workspace.
    pub open spec fn moved_to_workspace(self, id: WsId) -> Wm {
        let to = index_of_id(self.workspaces, id) as usize;
        let s = self.with_workspace(id);
        match s.effective_focused() {
            None => s,
            Some(w) => match s.home_of(w) {
                None => s,
                Some(from) => if from == to {
                    s
                } else {
                    let bare = s.special_left(s.focused_monitor, from, w);
                    let mi = bare.target_monitor(to);
                    bare.moved(w, from, to, bare.rect_on(mi)).sent_off(
                        w,
                        to,
                        mi,
                        bare.workspaces[from as int].floats(w),
                    )
                },
            },
        }
    }

    /// The focused window goes to the workspace of another monitor.
    pub open spec fn moved_to_monitor(self, mi: usize) -> Wm {
        let to = self.monitors[mi as int].active_workspace;
        let screen = self.rect_on(mi);
        match self.effective_focused() {
            None => self,
            Some(w) => match self.home_of(w) {
                None => self,
                Some(from) => {
                    let ws = self.workspaces[from as int];
                    let left = self.with_ws(from, ws.taken(w)).laid_out();
                    let there = left.with_ws(
                        to,
                        left.workspaces[to as int].placed(
                            w,
                            if ws.floats(w) { Some(arrival_rect(screen)) } else { None },
                            screen,
                        ),
                    );
                    Wm {
                        focused_monitor: mi,
                        ..there.did(fits_of(there.tiles(to, screen)))
                    }.focused_on(w, true)
                },
            },
        }
    }

    /// Another monitor gets the focus.
    pub open spec fn monitor_focused(self, mi: usize) -> Wm {
        let s = Wm { focused_monitor: mi, ..self }.laid_out();
        s.arrived(s.active_idx())
    }

    /// The monitor beside the focused one, in a ring.
    pub open spec fn monitor_beside(self, forward: bool) -> usize {
        let n = self.monitors.len() as int;
        (if forward {
            ring_next(n, self.focused_monitor as int)
        } else {
            ring_prev(n, self.focused_monitor as int)
        }) as usize
    }

    pub open spec fn monitor_stepped(self, forward: bool) -> Wm {
        if self.monitors.len() <= 1 {
            self
        } else {
            self.monitor_focused(self.monitor_beside(forward))
        }
    }

    pub open spec fn moved_to_monitor_beside(self, forward: bool) -> Wm {
        if self.monitors.len() <= 1 {
            self
        } else {
            self.moved_to_monitor(self.monitor_beside(forward))
        }
    }

    /// A workspace that cannot be seen is brought into view for a window that
    /// got the focus from outside.
    pub open spec fn unseen_adopted(self, home: usize, id: WindowId) -> Wm {
        match self.workspaces[home as int].id {
            WsId::Special(name) => match position(self.specials, Some(home)) {
                Some(mi) => Wm { focused_monitor: mi as usize, ..self },
                None => self.special_toggled(name),
            }.focused_on(id, false),
            ws_id => self.special_dismissed(self.focused_monitor).switched(ws_id).later(
                Todo::FollowFocus { ws_idx: home, id },
            ),
        }
    }

    /// A window that got the focus from outside gets it here too, on the
    /// monitor where it can be seen or after showing its workspace.
    pub open spec fn focus_adopted(self, id: WindowId) -> Wm {
        match self.home_of(id) {
            None => self,
            Some(home) => {
                let s = self.focused_on(id, false);
                match s.showing(home) {
                    Some(mi) => {
                        let bare = if mi < s.specials.len() && s.specials[mi as int] != Some(home) {
                            s.special_dismissed(mi)
                        } else {
                            s
                        };
                        Wm { focused_monitor: mi, ..bare }.mouse_synced(home, id)
                    },
                    None => s.unseen_adopted(home, id),
                }
            },
        }
    }

    /// Whether following a window takes a look at the focused monitor: its
    /// workspace is not shown anywhere yet.
    pub open spec fn adoption_reads(self, id: WindowId) -> bool {
        match self.home_of(id) {
            None => false,
            Some(home) => self.showing(home) is None && !(self.workspaces[home as int].id is Special
                && position(self.specials, Some(home)) is Some),
        }
    }

    /// Whether following an application takes a look at the focused monitor.
    pub open spec fn app_focus_reads(self, pid: i32, requested: Option<WindowId>) -> bool {
        let s = self.silence_checked().recent_pruned();
        !self.is_silent() && !is_echo(s.recent, pid, requested) && match s.external_target(
            pid,
            requested,
        ) {
            Some(w) => s.adoption_reads(w),
            None => false,
        }
    }

    /// An application got the focus from outside.
    pub open spec fn app_focus_adopted(self, pid: i32, requested: Option<WindowId>) -> Wm {
        if self.is_silent() {
            self
        } else {
            let s = self.silence_checked().recent_pruned();
            if is_echo(s.recent, pid, requested) {
                s
            } else {
                match s.external_target(pid, requested) {
                    Some(w) => s.focus_adopted(w),
                    None => s,
                }
            }
        }
    }
}

/// Giving the focus to a window of a workspace moves no workspace.
proof fn lemma_focus_in_place(wm: Wm, id: WindowId)
    requires
        wm.home_of(id) is Some,
    ensures
        ({
            let s = wm.focused_on(id, false);
            let home = wm.home_of(id)->0;
            &&& s.monitors == wm.monitors
            &&& s.specials == wm.specials
            &&& s.workspaces.len() == wm.workspaces.len()
            &&& home < wm.workspaces.len() ==> s.workspaces[home as int].id
                == wm.workspaces[home as int].id
        }),
{
    reveal(Wm::focused_on);
}

/// The workspaces that monitors show exist.
proof fn lemma_shown_exist(monitors: Seq<Monitor>, n: int, listed: Seq<usize>, count: int)
    requires
        0 <= n <= monitors.len(),
        forall|i: int|
            0 <= i < monitors.len() ==> (#[trigger] monitors[i]).active_workspace < count,
        forall|i: int| 0 <= i < listed.len() ==> #[trigger] listed[i] < count,
    ensures
        forall|i: int|
            0 <= i < shown_workspaces(monitors, n, listed).len()
                ==> #[trigger] shown_workspaces(monitors, n, listed)[i] < count,
    decreases n,
{
    if n > 0 {
        let ws_idx = monitors[n - 1].active_workspace;
        let more = if listed.contains(ws_idx) {
            listed
        } else {
            listed.push(ws_idx)
        };
        lemma_shown_exist(monitors, n - 1, more, count);
        assert(shown_workspaces(monitors, n, listed) == shown_workspaces(monitors, n - 1, more));
    }
}

fn list_shown(monitors: &Vec<Monitor>) -> (r: Vec<usize>)
    ensures
        r@ == shown_workspaces(monitors@, monitors@.len() as int, seq![]),
{
    let mut listed: Vec<usize> = Vec::new();
    let mut n: usize = monitors.len();
    assert(listed@ =~= seq![]);
    while n > 0
        invariant
            n <= monitors@.len(),
            shown_workspaces(monitors@, n as int, listed@) == shown_workspaces(
                monitors@,
                monitors@.len() as int,
                seq![],
            ),
        decreases n,
    {
        n = n - 1;
        let ws_idx: usize = monitors[n].active_workspace;
        if !contains_index(&listed, ws_idx) {
            listed.push(ws_idx);
        }
    }
    listed
}

fn contains_index(v: &Vec<usize>, x: usize) -> (r: bool)
    ensures
        r == v@.contains(x),
{
    let mut i: usize = 0;
    while i < v.len()
        invariant
            i <= v@.len(),
            forall|j: int| 0 <= j < i ==> v@[j] != x,
        decreases v.len() - i,
    {
        if v[i] == x {
            return true;
        }
        i = i + 1;
    }
    false
}

impl WmState {
    /// Puts a task behind the others.
    pub fn add_task(&mut self, task: Task)
        ensures
            final(self)@ == old(self)@.later(task@),
            old(self)@.sound() && task@.is_within(old(self)@.workspaces.len() as int)
                ==> final(self)@.sound(),
            old(self)@.ready() && task@.is_within(old(self)@.workspaces.len() as int)
                ==> final(self)@.ready(),
    {
        self.agenda.push(task);
        assert(self@.agenda =~= old(self)@.agenda.push(task@));
    }

    /// Makes room for large windows on every monitor: one that is too large for
    /// its tile gets a larger one, and floats where there is none.
    pub fn fix_oversized_windows(&mut self)
        requires
            old(self)@.sound(),
        ensures
            final(self)@ == old(self)@.fix_started(),
            final(self)@.sound(),
    {
        self.emit(Effect::Pause { ms: 100 });
        let todo = list_shown(&self.monitors);
        let job = FixJob { todo, settled: Vec::new(), floating: false };
        proof {
            lemma_shown_exist(
                self@.monitors,
                self@.monitors.len() as int,
                seq![],
                self@.workspaces.len() as int,
            );
            assert(job@.settled =~= seq![]);
        }
        self.add_task(Task::FixVisible(job));
    }

    /// Makes room for a window on a workspace, if a monitor shows it.
    pub fn fix_oversized_on_target(&mut self, ws_idx: usize, moved: WindowId)
        requires
            old(self)@.sound(),
            ws_idx < old(self)@.workspaces.len(),
        ensures
            final(self)@ == old(self)@.target_fix_started(ws_idx, moved),
            final(self)@.sound(),
    {
        if self.monitor_showing_workspace(ws_idx).is_none() {
            return ;
        }
        self.emit(Effect::Pause { ms: 100 });
        let job = TargetJob { ws_idx, moved, checked: false, settled: Vec::new() };
        assert(job@.settled =~= seq![]);
        self.add_task(Task::FixTarget(job));
    }

    /// The index of a workspace, which is added if need be.
    pub fn ensure_workspace(&mut self, id: WorkspaceId) -> (r: usize)
        requires
            old(self)@.sound(),
        ensures
            final(self)@ == old(self)@.with_workspace(id@),
            r == index_of_id(old(self)@.workspaces, id@),
            r < final(self)@.workspaces.len(),
            final(self)@.sound(),
            old(self)@.ready() ==> final(self)@.ready(),
    {
        let ghost before = self@;
        let idx: usize = self.workspaces.get_or_create_by_id(id);
        let _n: usize = self.workspaces.count();
        proof {
            law_workspace_by_name(before.workspaces, id@);
            assert forall|i: int| 0 <= i < self@.agenda.len() implies (
            #[trigger] self@.agenda[i]).is_within(self@.workspaces.len() as int) by {
                assert(before.agenda[i].is_within(before.workspaces.len() as int));
            }
        }
        idx
    }

    /// The index of a regular workspace, which is added if need be.
    pub fn workspace_index_for_target(&mut self, target: &WorkspaceTarget) -> (r: usize)
        requires
            old(self)@.sound(),
        ensures
            final(self)@ == old(self)@.with_workspace(target.id()),
            r == index_of_id(old(self)@.workspaces, target.id()),
            r < final(self)@.workspaces.len(),
            final(self)@.sound(),
            old(self)@.ready() ==> final(self)@.ready(),
    {
        self.ensure_workspace(target.to_workspace_id())
    }

    /// Gives the focus to the focused window of a workspace, and the mouse too.
    pub fn arrive(&mut self, ws_idx: usize)
        requires
            old(self)@.ready(),
            ws_idx < old(self)@.workspaces.len(),
        ensures
            final(self)@ == old(self)@.arrived(ws_idx),
            final(self)@.ready(),
            final(self)@.workspaces.len() == old(self)@.workspaces.len(),
    {
        match self.workspaces.get(ws_idx).focused {
            Some(wid) => {
                self.focus_window(wid);
                if self.mouse_follows_focus {
                    let screen: Rect = self.focused_rect();
                    let geoms = self.workspace_focus_geometries(ws_idx, screen);
                    match find_rect(&geoms, wid) {
                        Some(rect) => self.warp_to_center(&rect),
                        None => self.warp_to_center(&screen),
                    }
                    self.ffm_last_window = Some(wid);
                }
            },
            None => {
                if self.mouse_follows_focus {
                    let screen: Rect = self.focused_rect();
                    self.warp_to_center(&screen);
                }
            },
        }
    }

    /// The monitor on which a workspace is shown that no monitor shows.
    pub fn monitor_to_show(&self, ws_idx: usize) -> (r: usize)
        requires
            self@.ready(),
            ws_idx < self@.workspaces.len(),
        ensures
            r == self@.monitor_for(ws_idx),
            r < self@.monitors.len(),
    {
        if let Some(preferred) = self.preferred_monitor_for_workspace(ws_idx) {
            return preferred;
        }
        let ws = self.workspaces.get(ws_idx);
        if let Some(mi) = ws.last_monitor {
            if !ws.is_empty() && mi < self.monitors.len() {
                return mi;
            }
        }
        self.focused_monitor
    }

    /// Shows a workspace on a monitor in place of the one that is there.
    pub fn show_on_monitor(&mut self, ws_idx: usize, mi: usize)
        requires
            old(self)@.ready(),
            ws_idx < old(self)@.workspaces.len(),
            mi < old(self)@.monitors.len(),
        ensures
            final(self)@ == old(self)@.shown_on(ws_idx, mi),
            final(self)@.ready(),
    {
        let displaced: usize = self.monitors[mi].active_workspace;
        self.hide_workspace_windows(displaced, mi);
        let ghost hidden = self@;
        let ws = self.workspaces.get_mut(displaced);
        if ws.is_empty() {
            ws.last_monitor = None;
        }
        let ghost left = self@;
        assert(left == hidden.with_ws(
            displaced,
            if hidden.workspaces[displaced as int].has_no_windows() {
                Ws { last_monitor: None, ..hidden.workspaces[displaced as int] }
            } else {
                hidden.workspaces[displaced as int]
            },
        ));
        let mut m: Monitor = self.monitors[mi];
        m.active_workspace = ws_idx;
        self.monitors[mi] = m;
        let target = self.workspaces.get_mut(ws_idx);
        target.last_monitor = Some(mi);
        target.last_display_id = Some(m.id);
        self.focused_monitor = mi;
        self.sync_workspace_visibility();
    }

    /// Makes a regular workspace the active one.
    pub fn switch_workspace(&mut self, target: &WorkspaceTarget)
        requires
            old(self)@.ready(),
        ensures
            final(self)@ == old(self)@.switched(target.id()),
            final(self)@.ready(),
            final(self)@.workspaces.len() >= old(self)@.workspaces.len(),
    {
        proof {
            law_workspace_by_name(self@.workspaces, target.id());
        }
        let target_idx: usize = self.workspace_index_for_target(target);
        if target_idx == self.active_ws_idx() {
            return ;
        }
        self.arm_workspace_switch_silence();
        if let Some(other_mi) = self.monitor_showing_workspace(target_idx) {
            self.focused_monitor = other_mi;
            self.ffm_last_window = None;
            self.arrive(target_idx);
            return ;
        }
        let mi: usize = self.monitor_to_show(target_idx);
        self.show_on_monitor(target_idx, mi);
        self.apply_layout_twice();
        self.fix_oversized_windows();
        self.add_task(Task::FinishSwitch { ws_idx: target_idx });
    }

    /// Ends a switch once the windows are in place.
    pub fn finish_switch(&mut self, ws_idx: usize)
        requires
            old(self)@.ready(),
            ws_idx < old(self)@.workspaces.len(),
        ensures
            final(self)@ == old(self)@.switch_finished(ws_idx),
            final(self)@.ready(),
            final(self)@.workspaces.len() == old(self)@.workspaces.len(),
    {
        self.ffm_last_window = None;
        self.arrive(ws_idx);
    }

    fn regular_targets(&self) -> (r: Vec<WorkspaceTarget>)
        ensures
            r@ == ordered_targets(self@.workspaces),
    {
        let mut targets: Vec<WorkspaceTarget> = Vec::new();
        let ghost all = self@.workspaces;
        let mut i: usize = 0;
        while i < self.workspaces.count()
            invariant
                all == self@.workspaces,
                i <= all.len(),
                targets@ == targets_of(all.take(i as int)),
            decreases all.len() - i,
        {
            assert(all.take(i + 1).drop_last() =~= all.take(i as int));
            if let Some(t) = self.workspaces.get(i).id.as_regular_target() {
                targets.push(t);
            }
            i = i + 1;
        }
        assert(all.take(all.len() as int) =~= all);
        sort_targets(&targets)
    }

    fn step_workspace(&mut self, forward: bool)
        requires
            old(self)@.ready(),
        ensures
            final(self)@ == old(self)@.stepped(forward),
            final(self)@.ready(),
    {
        let current: WorkspaceTarget = match self.active_workspace().id.as_regular_target() {
            Some(t) => t,
            None => {
                return ;
            },
        };
        let targets = self.regular_targets();
        let n: usize = targets.len();
        let mut i: usize = 0;
        while i < n
            invariant
                n == targets@.len(),
                i <= n,
                forall|j: int| 0 <= j < i ==> targets@[j] != current,
            ensures
                i <= n,
                forall|j: int| 0 <= j < i ==> targets@[j] != current,
                i < n ==> targets@[i as int] == current,
            decreases n - i,
        {
            if targets[i] == current {
                break;
            }
            i = i + 1;
        }
        if i == n {
            assert(!targets@.contains(current));
            return ;
        }
        proof {
            lemma_position(targets@, current, i as int);
        }
        let k: usize = if forward {
            if i + 1 < n {
                i + 1
            } else {
                0
            }
        } else if i > 0 {
            i - 1
        } else {
            n - 1
        };
        let target: WorkspaceTarget = targets[k];
        self.switch_workspace(&target);
    }

    pub fn workspace_next(&mut self)
        requires
            old(self)@.ready(),
        ensures
            final(self)@ == old(self)@.stepped(true),
            final(self)@.ready(),
    {
        self.step_workspace(true);
    }

    pub fn workspace_prev(&mut self)
        requires
            old(self)@.ready(),
        ensures
            final(self)@ == old(self)@.stepped(false),
            final(self)@.ready(),
    {
        self.step_workspace(false);
    }

    /// Makes a place for an overlay on each monitor.
    fn pad_specials(&mut self)
        requires
            old(self)@.sound(),
        ensures
            final(self)@ == old(self)@.specials_padded(),
            final(self)@.sound(),
            old(self)@.ready() ==> final(self)@.ready(),
    {
        let ghost before = self@;
        while self.active_specials.len() < self.monitors.len()
            invariant
                before.sound(),
                self@ == (Wm { specials: self@.specials, ..before }),
                before.specials.len() <= self@.specials.len(),
                self@.specials.len() <= before.monitors.len(),
                forall|i: int|
                    0 <= i < self@.specials.len() ==> #[trigger] self@.specials[i] == if i
                        < before.specials.len() {
                        before.specials[i]
                    } else {
                        None
                    },
            decreases self.monitors.len() - self.active_specials.len(),
        {
            self.active_specials.push(None);
        }
        assert(self@.specials =~= before.specials_padded().specials);
    }

    /// The overlay of a name.
    pub fn special_config(&self, name: &str) -> (r: SpecialWorkspaceConfig)
        ensures
            r@ == self@.overlay_named(name@),
    {
        let ghost p = is_overlay_of(name@);
        let ghost all = self@.overlays;
        let mut i: usize = 0;
        while i < self.special_configs.len()
            invariant
                p == is_overlay_of(name@),
                all == overlay_views(self.special_configs@),
                all == self@.overlays,
                i <= self.special_configs@.len(),
                forall|j: int| 0 <= j < i ==> !p(#[trigger] all[j]),
            decreases self.special_configs.len() - i,
        {
            if same(self.special_configs[i].name.as_str(), name) {
                proof {
                    assert(all[i as int] == self.special_configs@[i as int]@);
                    lemma_first_where(all, p, i as int);
                }
                return self.special_configs[i].clone();
            }
            assert(!p(all[i as int]));
            i = i + 1;
        }
        proof {
            lemma_first_where_none(all, p);
        }
        SpecialWorkspaceConfig::default_for(name)
    }

    /// Gives the focus to the focused window of the active workspace.
    pub fn focus_active_window(&mut self)
        requires
            old(self)@.ready(),
        ensures
            final(self)@ == old(self)@.focus_active(),
            final(self)@.ready(),
            final(self)@.workspaces.len() == old(self)@.workspaces.len(),
    {
        if let Some(wid) = self.active_workspace().focused {
            self.focus_window(wid);
        }
    }

    fn show_special(&mut self, mi: usize, special_idx: usize, name: &str)
        requires
            old(self)@.ready(),
            mi < old(self)@.specials.len(),
            special_idx < old(self)@.workspaces.len(),
        ensures
            final(self)@ == old(self)@.special_shown(mi, special_idx, name@),
            final(self)@.ready(),
            final(self)@.workspaces.len() == old(self)@.workspaces.len(),
    {
        self.active_specials[mi] = Some(special_idx);
        self.workspaces.get_mut(special_idx).last_monitor = Some(mi);
        self.sync_workspace_visibility();
        let ghost s = self@;
        let ws = self.workspaces.get(special_idx);
        if ws.tree.window_count() == 0 && ws.floating.is_empty() {
            return ;
        }
        let screen: Rect = self.monitor_rect(mi);
        let config = self.special_config(name);
        let overlay: Rect = overlay_geometry(&screen, &config);
        let geoms = self.workspace_render_geometries(special_idx, overlay);
        let floating = float_rects(&ws.floating);
        let target: Option<WindowId> = match ws.focused {
            Some(w) => Some(w),
            None => {
                if geoms.len() > 0 {
                    Some(geoms[0].0)
                } else {
                    None
                }
            },
        };
        self.emit_shows_above(&geoms);
        self.emit_shows_above(&floating);
        assert(self@ =~= s.did(shows_above_of(geoms@) + shows_above_of(floating@)));
        if let Some(wid) = target {
            self.focus_window(wid);
        }
    }

    /// Lays a special workspace over the focused monitor, or puts it away.
    pub fn toggle_special(&mut self, name: &str)
        requires
            old(self)@.ready(),
        ensures
            final(self)@ == old(self)@.special_toggled(name@),
            final(self)@.ready(),
            final(self)@.workspaces.len() >= old(self)@.workspaces.len(),
    {
        proof {
            law_workspace_by_name(self@.workspaces, WsId::Special(name@));
        }
        let special_idx: usize = self.ensure_workspace(WorkspaceId::Special(copy(name)));
        self.pad_specials();
        let mi: usize = self.focused_monitor;
        let shown: bool = match self.active_specials[mi] {
            Some(idx) => idx == special_idx,
            None => false,
        };
        self.dismiss_special_on_monitor(mi);
        if shown {
            self.focus_active_window();
        } else {
            self.show_special(mi, special_idx, name);
        }
    }

    /// Takes a window out of a workspace and puts it into another one.
    fn move_window(&mut self, id: WindowId, from: usize, to: usize, screen: Rect) -> (r: bool)
        requires
            old(self)@.ready(),
            from < old(self)@.workspaces.len(),
            to < old(self)@.workspaces.len(),
        ensures
            final(self)@ == old(self)@.moved(id, from, to, screen),
            r == old(self)@.workspaces[from as int].floats(id),
            final(self)@.ready(),
    {
        let was_floating: bool = self.workspaces.get_mut(from).take_window(id);
        let float: Option<Rect> = if was_floating {
            Some(arrival_geometry(&screen))
        } else {
            None
        };
        self.workspaces.get_mut(to).place_window(id, float, screen);
        was_floating
    }

    /// Moves the focused window to a special workspace.
    pub fn move_to_special(&mut self, name: &str)
        requires
            old(self)@.ready(),
        ensures
            final(self)@ == old(self)@.moved_to_special(name@),
            final(self)@.ready(),
    {
        let focused: WindowId = match self.active_workspace().focused {
            Some(f) => f,
            None => {
                return ;
            },
        };
        let current_idx: usize = self.active_ws_idx();
        let special_idx: usize = self.ensure_workspace(WorkspaceId::Special(copy(name)));
        if current_idx == special_idx {
            return ;
        }
        let screen: Rect = self.focused_rect();
        let _ = self.move_window(focused, current_idx, special_idx, screen);
        self.pad_specials();
        let seen: bool = match self.active_specials[self.focused_monitor] {
            Some(idx) => idx == special_idx,
            None => false,
        };
        if seen {
            self.restack_floating_windows(special_idx);
        } else {
            self.hide_window(focused);
        }
        self.apply_layout();
        self.focus_active_window();
    }

    fn leave_special(&mut self, mi: usize, ws_idx: usize, id: WindowId)
        requires
            old(self)@.ready(),
            ws_idx < old(self)@.workspaces.len(),
        ensures
            final(self)@ == old(self)@.special_left(mi, ws_idx, id),
            final(self)@.ready(),
    {
        let there: bool = match self.special_on(mi) {
            Some(idx) => idx == ws_idx,
            None => false,
        };
        if there {
            self.active_specials[mi] = None;
            self.sync_workspace_visibility();
            let ids = self.workspaces.get(ws_idx).all_window_ids();
            let rest = remove_all_u32(&ids, id);
            self.hide_windows(&rest);
        }
    }

    /// The monitor of a workspace to which a window is sent.
    pub fn monitor_of_target(&self, ws_idx: usize) -> (r: usize)
        requires
            self@.ready(),
            ws_idx < self@.workspaces.len(),
        ensures
            r == self@.target_monitor(ws_idx),
            r < self@.monitors.len(),
    {
        if let Some(mi) = self.monitor_showing_workspace(ws_idx) {
            return mi;
        }
        if let Some(mi) = self.preferred_monitor_for_workspace(ws_idx) {
            return mi;
        }
        self.focused_monitor
    }

    /// Moves the focused window to a regular workspace.
    pub fn move_to_workspace(&mut self, target: &WorkspaceTarget)
        requires
            old(self)@.ready(),
        ensures
            final(self)@ == old(self)@.moved_to_workspace(target.id()),
            final(self)@.ready(),
    {
        let target_idx: usize = self.workspace_index_for_target(target);
        let focused: WindowId = match self.effective_focused() {
            Some(f) => f,
            None => {
                return ;
            },
        };
        let current_idx: usize = match self.workspaces.find_window(focused) {
            Some(idx) => idx,
            None => {
                return ;
            },
        };
        if target_idx == current_idx {
            return ;
        }
        self.leave_special(self.focused_monitor, current_idx, focused);
        let mi: usize = self.monitor_of_target(target_idx);
        let screen: Rect = self.monitor_rect(mi);
        let was_floating: bool = self.move_window(focused, current_idx, target_idx, screen);
        self.send_off(focused, target_idx, mi, was_floating);
    }

    fn send_off(&mut self, id: WindowId, to: usize, mi: usize, floats: bool)
        requires
            old(self)@.ready(),
            to < old(self)@.workspaces.len(),
            mi < old(self)@.monitors.len(),
        ensures
            final(self)@ == old(self)@.sent_off(id, to, mi, floats),
            final(self)@.ready(),
    {
        let display: u32 = self.monitors[mi].id;
        let ghost there = self@;
        let ws = self.workspaces.get_mut(to);
        ws.last_monitor = Some(mi);
        ws.last_display_id = Some(display);
        assert(self@ == there.with_ws(
            to,
            Ws {
                last_monitor: Some(mi),
                last_display_id: Some(display),
                ..there.workspaces[to as int]
            },
        ));
        if !self.workspace_is_effectively_visible(to) {
            self.hide_window(id);
        }
        self.apply_layout_twice();
        if !floats {
            self.fix_oversized_on_target(to, id);
        }
        self.add_task(Task::FocusActive);
    }

    /// Moves the focused window to the workspace of another monitor.
    pub fn move_window_to_monitor(&mut self, target_mi: usize)
        requires
            old(self)@.ready(),
            target_mi < old(self)@.monitors.len(),
        ensures
            final(self)@ == old(self)@.moved_to_monitor(target_mi),
            final(self)@.ready(),
    {
        let focused: WindowId = match self.effective_focused() {
            Some(f) => f,
            None => {
                return ;
            },
        };
        let target_idx: usize = self.monitors[target_mi].active_workspace;
        let screen: Rect = self.monitor_rect(target_mi);
        let current_idx: usize = match self.workspaces.find_window(focused) {
            Some(idx) => idx,
            None => {
                return ;
            },
        };
        let was_floating: bool = self.workspaces.get_mut(current_idx).take_window(focused);
        self.apply_layout();
        let float: Option<Rect> = if was_floating {
            Some(arrival_geometry(&screen))
        } else {
            None
        };
        self.workspaces.get_mut(target_idx).place_window(focused, float, screen);
        let geoms = self.workspace_render_geometries(target_idx, screen);
        self.emit_fits(&geoms);
        self.focused_monitor = target_mi;
        self.focus_window(focused);
    }

    fn focus_monitor(&mut self, mi: usize)
        requires
            old(self)@.ready(),
            mi < old(self)@.monitors.len(),
        ensures
            final(self)@ == old(self)@.monitor_focused(mi),
            final(self)@.ready(),
    {
        self.focused_monitor = mi;
        self.apply_layout();
        let ws_idx: usize = self.active_ws_idx();
        self.arrive(ws_idx);
    }

    pub fn focus_monitor_next(&mut self)
        requires
            old(self)@.sound(),
            old(self)@.monitors.len() > 1 ==> old(self)@.ready(),
        ensures
            final(self)@ == old(self)@.monitor_stepped(true),
            final(self)@.sound(),
            old(self)@.ready() ==> final(self)@.ready(),
    {
        if self.monitors.len() <= 1 {
            return ;
        }
        let next: usize = next_index(&self.monitors, self.focused_monitor);
        self.focus_monitor(next);
    }

    pub fn focus_monitor_prev(&mut self)
        requires
            old(self)@.sound(),
            old(self)@.monitors.len() > 1 ==> old(self)@.ready(),
        ensures
            final(self)@ == old(self)@.monitor_stepped(false),
            final(self)@.sound(),
            old(self)@.ready() ==> final(self)@.ready(),
    {
        if self.monitors.len() <= 1 {
            return ;
        }
        let prev: usize = prev_index(&self.monitors, self.focused_monitor);
        self.focus_monitor(prev);
    }

    pub fn move_to_monitor_next(&mut self)
        requires
            old(self)@.sound(),
            old(self)@.monitors.len() > 1 ==> old(self)@.ready(),
        ensures
            final(self)@ == old(self)@.moved_to_monitor_beside(true),
            final(self)@.sound(),
            old(self)@.ready() ==> final(self)@.ready(),
    {
        if self.monitors.len() <= 1 {
            return ;
        }
        let next: usize = next_index(&self.monitors, self.focused_monitor);
        self.move_window_to_monitor(next);
    }

    pub fn move_to_monitor_prev(&mut self)
        requires
            old(self)@.sound(),
            old(self)@.monitors.len() > 1 ==> old(self)@.ready(),
        ensures
            final(self)@ == old(self)@.moved_to_monitor_beside(false),
            final(self)@.sound(),
            old(self)@.ready() ==> final(self)@.ready(),
    {
        if self.monitors.len() <= 1 {
            return ;
        }
        let prev: usize = prev_index(&self.monitors, self.focused_monitor);
        self.move_window_to_monitor(prev);
    }

    fn overlay_position(&self, ws_idx: usize) -> (r: Option<usize>)
        ensures
            match r {
                Some(i) => position(self@.specials, Some(ws_idx)) == Some(i as int) && i
                    < self@.specials.len(),
                None => position(self@.specials, Some(ws_idx)) is None,
            },
    {
        let mut i: usize = 0;
        while i < self.active_specials.len()
            invariant
                i <= self.active_specials@.len(),
                forall|j: int| 0 <= j < i ==> self.active_specials@[j] != Some(ws_idx),
            decreases self.active_specials.len() - i,
        {
            if let Some(idx) = self.active_specials[i] {
                if idx == ws_idx {
                    proof {
                        lemma_position(self@.specials, Some(ws_idx), i as int);
                    }
                    return Some(i);
                }
            }
            i = i + 1;
        }
        assert(!self@.specials.contains(Some(ws_idx)));
        None
    }

    /// Gives the focus to a window that got it from outside.
    pub fn adopt_external_focus(&mut self, id: WindowId)
        requires
            old(self)@.sound(),
            old(self)@.adoption_reads(id) ==> old(self)@.ready(),
        ensures
            final(self)@ == old(self)@.focus_adopted(id),
            final(self)@.sound(),
            old(self)@.ready() ==> final(self)@.ready(),
            final(self)@.workspaces.len() >= old(self)@.workspaces.len(),
    {
        let ws_idx: usize = match self.workspaces.find_window(id) {
            Some(idx) => idx,
            None => {
                return ;
            },
        };
        let ghost before = self@;
        self.focus_window_impl(id, false);
        proof {
            lemma_focus_in_place(before, id);
        }
        if let Some(mi) = self.monitor_showing_workspace(ws_idx) {
            if mi < self.active_specials.len() {
                let own: bool = match self.active_specials[mi] {
                    Some(idx) => idx == ws_idx,
                    None => false,
                };
                if !own {
                    self.dismiss_special_on_monitor(mi);
                }
            }
            self.focused_monitor = mi;
            self.sync_mouse_after_focus(ws_idx, id);
            return ;
        }
        self.adopt_unseen(ws_idx, id);
    }

    /// Brings a workspace into view whose window got the focus from outside.
    fn adopt_unseen(&mut self, ws_idx: usize, id: WindowId)
        requires
            old(self)@.sound(),
            ws_idx < old(self)@.workspaces.len(),
            !(old(self)@.workspaces[ws_idx as int].id is Special && position(
                old(self)@.specials,
                Some(ws_idx),
            ) is Some) ==> old(self)@.ready(),
        ensures
            final(self)@ == old(self)@.unseen_adopted(ws_idx, id),
            final(self)@.ready(),
            final(self)@.workspaces.len() >= old(self)@.workspaces.len(),
    {
        let ws_id = self.workspaces.get(ws_idx).id.clone();
        match &ws_id {
            WorkspaceId::Special(name) => {
                match self.overlay_position(ws_idx) {
                    Some(mi) => {
                        self.focused_monitor = mi;
                    },
                    None => {
                        self.toggle_special(name.as_str());
                    },
                }
                self.focus_window_impl(id, false);
            },
            WorkspaceId::Numbered(n) => {
                self.switch_and_follow(&WorkspaceTarget::Numbered(*n), ws_idx, id);
            },
            WorkspaceId::Lettered(c) => {
                self.switch_and_follow(&WorkspaceTarget::Lettered(*c), ws_idx, id);
            },
        }
    }

    fn switch_and_follow(&mut self, target: &WorkspaceTarget, ws_idx: usize, id: WindowId)
        requires
            old(self)@.ready(),
            ws_idx < old(self)@.workspaces.len(),
        ensures
            final(self)@ == old(self)@.special_dismissed(old(self)@.focused_monitor).switched(
                target.id(),
            ).later(Todo::FollowFocus { ws_idx, id }),
            final(self)@.ready(),
            final(self)@.workspaces.len() >= old(self)@.workspaces.len(),
    {
        self.dismiss_special_on_monitor(self.focused_monitor);
        self.switch_workspace(target);
        self.add_task(Task::FollowFocus { ws_idx, id });
    }

    /// Follows an application that got the focus from outside.
    pub fn adopt_external_app_focus(&mut self, pid: i32, requested: Option<WindowId>)
        requires
            old(self)@.sound(),
            old(self)@.app_focus_reads(pid, requested) ==> old(self)@.ready(),
        ensures
            final(self)@ == old(self)@.app_focus_adopted(pid, requested),
            final(self)@.sound(),
            old(self)@.ready() ==> final(self)@.ready(),
            final(self)@.workspaces.len() >= old(self)@.workspaces.len(),
    {
        if self.is_in_workspace_switch_silence() {
            return ;
        }
        if self.should_ignore_external_focus(pid, requested) {
            return ;
        }
        if let Some(target) = self.resolve_external_focus_target(pid, requested) {
            self.adopt_external_focus(target);
        }
    }
}

} // verus!
