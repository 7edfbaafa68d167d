//! Giving windows the focus, and telling own focus changes from foreign ones.
use vstd::prelude::*;
use crate::seqs::{
    first_where, is_last_where, last_where, least, lemma_first_where, lemma_first_where_none,
    lemma_last_where, lemma_least, lemma_least_none,
};
use crate::wm::adjacency::{find_rect, rect_of};
use crate::wm::effects::{lifts_of, warp_effect, warp_to, Effect};
use crate::wm::geometry::{Direction, Rect};
use crate::wm::state::{FocusMemory, RecentFocus, Wm, WmState};
use crate::wm::window::{window_of, Win, WindowId};
use crate::wm::workspace::Ws;

verus! {

/// For how many milliseconds the focus does not follow a mouse that was moved
/// by the manager.
pub const WARP_COOLDOWN: u64 = 200;

/// How many own focus changes are kept.
pub const RECENT_FOCUS_CAPACITY: usize = 16;

/// For how many milliseconds an own focus change is kept.
pub const RECENT_FOCUS_TTL: u64 = 600;

/// For how many milliseconds after a workspace switch foreign focus changes are
/// dropped.
pub const WORKSPACE_SWITCH_SILENCE: u64 = 400;

/// The time some milliseconds after another one.
pub open spec fn after(now: u64, ms: u64) -> u64 {
    if now + ms > u64::MAX {
        u64::MAX
    } else {
        (now + ms) as u64
    }
}

pub fn time_after(now: u64, ms: u64) -> (r: u64)
    ensures
        r == after(now, ms),
{
    if now > u64::MAX - ms {
        u64::MAX
    } else {
        now + ms
    }
}

pub open spec fn opposite(direction: Direction) -> Direction {
    match direction {
        Direction::Left => Direction::Right,
        Direction::Right => Direction::Left,
        Direction::Up => Direction::Down,
        Direction::Down => Direction::Up,
    }
}

pub fn opposite_direction(direction: Direction) -> (r: Direction)
    ensures
        r == opposite(direction),
{
    match direction {
        Direction::Left => Direction::Right,
        Direction::Right => Direction::Left,
        Direction::Up => Direction::Down,
        Direction::Down => Direction::Up,
    }
}

/// Tells the memory of a move from a window in a direction.
pub open spec fn is_memory_of(from: WindowId, direction: Direction) -> spec_fn(FocusMemory) -> bool {
    |m: FocusMemory| m.from == from && m.direction == direction
}

/// Tells memories in which a window does not occur.
pub open spec fn is_memory_without(w: WindowId) -> spec_fn(FocusMemory) -> bool {
    |m: FocusMemory| m.from != w && m.to != w
}

/// Where the focus went the last time it left a window in a direction.
pub open spec fn remembered_target(
    memory: Seq<FocusMemory>,
    from: WindowId,
    direction: Direction,
) -> Option<WindowId> {
    match first_where(memory, is_memory_of(from, direction)) {
        Some(i) => Some(memory[i].to),
        None => None,
    }
}

/// The memories with one more, in place of an older one of the same move.
pub open spec fn with_memory(memory: Seq<FocusMemory>, m: FocusMemory) -> Seq<FocusMemory> {
    match first_where(memory, is_memory_of(m.from, m.direction)) {
        Some(i) => memory.update(i, m),
        None => memory.push(m),
    }
}

/// Tells focus changes that have not expired.
pub open spec fn is_live(now: u64) -> spec_fn(RecentFocus) -> bool {
    |r: RecentFocus| now < r.until
}

/// Tells the own focus change to a window.
pub open spec fn is_focus_of(id: WindowId, pid: i32) -> spec_fn(RecentFocus) -> bool {
    |r: RecentFocus| r.id == id && r.pid == pid
}

/// Own focus changes with one more; a full list loses its oldest entry.
pub open spec fn with_recent(recent: Seq<RecentFocus>, r: RecentFocus) -> Seq<RecentFocus> {
    match first_where(recent, is_focus_of(r.id, r.pid)) {
        Some(i) => recent.update(i, r),
        None => if recent.len() >= RECENT_FOCUS_CAPACITY {
            recent.remove(0).push(r)
        } else {
            recent.push(r)
        },
    }
}

/// Whether a report of a focus echoes an own focus change: to the window that
/// it names or, if it names none, to the application.
pub open spec fn is_echo(recent: Seq<RecentFocus>, pid: i32, requested: Option<WindowId>) -> bool {
    match requested {
        Some(id) => exists|i: int| 0 <= i < recent.len() && (#[trigger] recent[i]).id == id,
        None => exists|i: int| 0 <= i < recent.len() && (#[trigger] recent[i]).pid == pid,
    }
}

/// The rectangle of a window as it is known.
pub open spec fn known_rect(w: Win) -> Rect {
    Rect { x: w.x, y: w.y, width: w.width, height: w.height }
}

impl Ws {
    /// `w` comes to the top of its stack or of the floating windows and has the
    /// focus.
    pub open spec fn focus_given(self, w: WindowId) -> Ws {
        let raised = self.raised(w);
        Ws { tree: raised.tree.activated(w), ..raised }.focus_recorded(w)
    }
}

impl Wm {
    /// The focus went from a window in a direction to another one; going back
    /// leads to the first.
    pub open spec fn remembered(self, from: WindowId, direction: Direction, to: WindowId) -> Wm {
        Wm {
            memory: with_memory(
                with_memory(self.memory, FocusMemory { from, direction, to }),
                FocusMemory { from: to, direction: opposite(direction), to: from },
            ),
            ..self
        }
    }

    /// A window occurs in no memory.
    pub open spec fn forgot(self, w: WindowId) -> Wm {
        Wm { memory: self.memory.filter(is_memory_without(w)), ..self }
    }

    /// Own focus changes that have expired are gone.
    pub open spec fn recent_pruned(self) -> Wm {
        Wm { recent: self.recent.filter(is_live(self.now)), ..self }
    }

    /// An own focus change to a known window is kept.
    pub open spec fn marked(self, id: WindowId) -> Wm {
        match window_of(self.registry, id) {
            Some(w) => {
                let s = self.recent_pruned();
                let entry = RecentFocus {
                    id,
                    pid: w.app_pid,
                    until: after(self.now, RECENT_FOCUS_TTL),
                };
                Wm { recent: with_recent(s.recent, entry), ..s }
            },
            None => self,
        }
    }

    /// Foreign focus changes are dropped for a while.
    pub open spec fn silenced(self) -> Wm {
        Wm { silence: Some(after(self.now, WORKSPACE_SWITCH_SILENCE)), ..self }
    }

    pub open spec fn is_silent(self) -> bool {
        self.silence is Some && self.now < self.silence->0
    }

    /// A silence that is over is forgotten.
    pub open spec fn silence_checked(self) -> Wm {
        if self.is_silent() {
            self
        } else {
            Wm { silence: None, ..self }
        }
    }

    /// The mouse goes to the middle of a rectangle and is not followed for a
    /// while.
    pub open spec fn warped(self, rect: Rect) -> Wm {
        Wm { cooldown: Some(after(self.now, WARP_COOLDOWN)), ..self.did(seq![warp_to(rect)]) }
    }

    /// The rectangle of a window among tiles, or else another one.
    pub open spec fn tile_or(
        self,
        tiles: Seq<(WindowId, Rect)>,
        id: WindowId,
        otherwise: Rect,
    ) -> Rect {
        match rect_of(tiles, id) {
            Some(r) => r,
            None => otherwise,
        }
    }

    /// The workspace in which a window gets the focus: the one that holds it,
    /// or else the active one.
    pub open spec fn focus_home(self, id: WindowId) -> usize {
        match self.home_of(id) {
            Some(i) => i,
            None => self.active_idx(),
        }
    }

    /// The borders of the windows that lose and get the focus.
    pub open spec fn focus_borders(self, before: Option<WindowId>, id: WindowId) -> Seq<Effect> {
        let lost = match before {
            Some(w) => match window_of(self.registry, w) {
                Some(win) => seq![Effect::Border { id: w, rect: known_rect(win), focused: false }],
                None => seq![],
            },
            None => seq![],
        };
        let got = match window_of(self.registry, id) {
            Some(win) => seq![Effect::Border { id, rect: known_rect(win), focused: true }],
            None => seq![],
        };
        if self.borders && before != Some(id) {
            lost + got
        } else {
            seq![]
        }
    }

    /// A window gets the focus in its workspace; with `activate` it also comes
    /// to the front of the screen.
    #[verifier::opaque]
    pub open spec fn focused_on(self, id: WindowId, activate: bool) -> Wm {
        let pid = match window_of(self.registry, id) {
            Some(w) => Some(w.app_pid),
            None => None,
        };
        let start = if activate {
            self.marked(id).did(seq![Effect::Activate { id, pid }])
        } else {
            self
        };
        let home = self.focus_home(id);
        let ws = self.workspaces[home as int];
        let given = start.with_ws(home, ws.focus_given(id));
        let shown = if ws.tree.in_stack(id) {
            given.laid_out()
        } else {
            given
        };
        let lifted = shown.did(lifts_of(ws.focus_given(id).floating));
        lifted.did(lifted.focus_borders(ws.focused, id))
    }

    /// The overlay of a monitor is put away.
    pub open spec fn special_dismissed(self, mi: usize) -> Wm {
        match self.special_on(mi) {
            Some(i) => {
                let s = Wm {
                    specials: self.specials.update(mi as int, None),
                    ..self
                }.visibility_synced();
                s.did(s.hides_of(self.workspaces[i as int].window_ids()))
            },
            None => self,
        }
    }

    /// The mouse follows the focus to a window of a workspace.
    pub open spec fn mouse_synced(self, ws_idx: usize, id: WindowId) -> Wm {
        let s = Wm { hovered: Some(id), ..self };
        if self.mouse_follows_focus {
            let rect = match self.showing(ws_idx) {
                Some(mi) => self.rect_on(mi),
                None => self.focused_rect(),
            };
            s.warped(self.tile_or(self.focus_tiles(ws_idx, rect), id, rect))
        } else {
            s
        }
    }

    /// Whether a window can take over a foreign focus.
    pub open spec fn is_candidate(self, id: WindowId) -> bool {
        &&& window_of(self.registry, id) is Some
        &&& !window_of(self.registry, id)->0.minimized
        &&& self.home_of(id) is Some
    }

    /// Tells windows of an application that can take over a foreign focus.
    pub open spec fn is_candidate_of(self, pid: i32) -> spec_fn(WindowId) -> bool {
        |id: WindowId|
            {
                &&& window_of(self.registry, id) is Some
                &&& window_of(self.registry, id)->0.app_pid == pid
                &&& self.is_candidate(id)
            }
    }

    /// The window of an application that last had the focus in a workspace.
    pub open spec fn pid_target_in(self, ws_idx: usize, pid: i32) -> Option<WindowId> {
        let history = self.workspaces[ws_idx as int].focus_history;
        match last_where(history, self.is_candidate_of(pid)) {
            Some(i) => Some(history[i]),
            None => None,
        }
    }

    /// Tells workspaces other than one that a monitor shows, or does not show,
    /// and that have a window of an application to offer.
    pub open spec fn offers(
        self,
        pid: i32,
        shown: bool,
        except: Option<usize>,
    ) -> spec_fn(int) -> bool {
        |i: int|
            {
                &&& Some(i as usize) != except
                &&& (self.showing(i as usize) is Some) == shown
                &&& self.pid_target_in(i as usize, pid) is Some
            }
    }

    /// Tells known windows of an application that can take over a foreign focus.
    pub open spec fn is_known_candidate(self, pid: i32) -> spec_fn(Win) -> bool {
        |w: Win| w.app_pid == pid && self.is_candidate(w.id)
    }

    /// The window that takes over a foreign focus: the one that was asked for,
    /// or else one of the application, first on the active workspace, then on
    /// those that can be seen, then on the others.
    pub open spec fn external_target(
        self,
        pid: i32,
        requested: Option<WindowId>,
    ) -> Option<WindowId> {
        let active = if self.focused_monitor < self.monitors.len() {
            Some(self.active_idx())
        } else {
            None
        };
        let n = self.workspaces.len() as int;
        let shown = least(n, self.offers(pid, true, active));
        let hidden = least(n, self.offers(pid, false, None));
        if requested is Some && self.is_candidate(requested->0) {
            requested
        } else if active is Some && self.pid_target_in(active->0, pid) is Some {
            self.pid_target_in(active->0, pid)
        } else if shown is Some {
            self.pid_target_in(shown->0 as usize, pid)
        } else if hidden is Some {
            self.pid_target_in(hidden->0 as usize, pid)
        } else {
            match first_where(self.registry, self.is_known_candidate(pid)) {
                Some(i) => Some(self.registry[i].id),
                None => None,
            }
        }
    }
}

impl WmState {
    fn memory_index(&self, from: WindowId, direction: Direction) -> (r: Option<usize>)
        ensures
            match r {
                Some(i) => first_where(self@.memory, is_memory_of(from, direction)) == Some(
                    i as int,
                ) && i < self@.memory.len(),
                None => first_where(self@.memory, is_memory_of(from, direction)) is None,
            },
    {
        let ghost p = is_memory_of(from, direction);
        let mut i: usize = 0;
        while i < self.focus_return_memory.len()
            invariant
                p == is_memory_of(from, direction),
                i <= self.focus_return_memory@.len(),
                forall|j: int| 0 <= j < i ==> !p(#[trigger] self.focus_return_memory@[j]),
            decreases self.focus_return_memory.len() - i,
        {
            let m: FocusMemory = self.focus_return_memory[i];
            if m.from == from && m.direction == direction {
                proof {
                    lemma_first_where(self@.memory, p, i as int);
                }
                return Some(i);
            }
            i = i + 1;
        }
        proof {
            lemma_first_where_none(self@.memory, p);
        }
        None
    }

    /// Where the focus went the last time it left a window in a direction.
    pub fn remembered_focus(&self, from: WindowId, direction: Direction) -> (r: Option<WindowId>)
        ensures
            r == remembered_target(self@.memory, from, direction),
    {
        match self.memory_index(from, direction) {
            Some(i) => Some(self.focus_return_memory[i].to),
            None => None,
        }
    }

    fn store_memory(&mut self, m: FocusMemory)
        ensures
            final(self)@ == (Wm { memory: with_memory(old(self)@.memory, m), ..old(self)@ }),
    {
        match self.memory_index(m.from, m.direction) {
            Some(i) => {
                self.focus_return_memory[i] = m;
            },
            None => {
                self.focus_return_memory.push(m);
            },
        }
    }

    /// Remembers a move of the focus and the way back.
    pub fn remember_focus_transition(
        &mut self,
        from: WindowId,
        direction: Direction,
        to: WindowId,
    )
        ensures
            final(self)@ == old(self)@.remembered(from, direction, to),
    {
        self.store_memory(FocusMemory { from, direction, to });
        self.store_memory(
            FocusMemory { from: to, direction: opposite_direction(direction), to: from },
        );
    }

    /// Forgets every move in which a window occurs.
    pub fn prune_focus_memory_for_window(&mut self, window: WindowId)
        ensures
            final(self)@ == old(self)@.forgot(window),
    {
        let ghost p = is_memory_without(window);
        let mut kept: Vec<FocusMemory> = Vec::new();
        let mut i: usize = 0;
        while i < self.focus_return_memory.len()
            invariant
                p == is_memory_without(window),
                i <= self.focus_return_memory@.len(),
                kept@ == self.focus_return_memory@.take(i as int).filter(p),
                *self == *old(self),
            decreases self.focus_return_memory.len() - i,
        {
            proof {
                assert(self.focus_return_memory@.take(i + 1).drop_last()
                    =~= self.focus_return_memory@.take(i as int));
                reveal(Seq::filter);
            }
            let m: FocusMemory = self.focus_return_memory[i];
            if m.from != window && m.to != window {
                kept.push(m);
            }
            i = i + 1;
        }
        assert(self.focus_return_memory@.take(self.focus_return_memory@.len() as int)
            =~= self.focus_return_memory@);
        self.focus_return_memory = kept;
    }

    /// Drops own focus changes that have expired.
    pub fn prune_recent_internal_focus(&mut self)
        ensures
            final(self)@ == old(self)@.recent_pruned(),
    {
        let now: u64 = self.now;
        let ghost p = is_live(now);
        let mut kept: Vec<RecentFocus> = Vec::new();
        let mut i: usize = 0;
        while i < self.recent_internal_focus.len()
            invariant
                p == is_live(now),
                i <= self.recent_internal_focus@.len(),
                kept@ == self.recent_internal_focus@.take(i as int).filter(p),
                *self == *old(self),
            decreases self.recent_internal_focus.len() - i,
        {
            proof {
                assert(self.recent_internal_focus@.take(i + 1).drop_last()
                    =~= self.recent_internal_focus@.take(i as int));
                reveal(Seq::filter);
            }
            let r: RecentFocus = self.recent_internal_focus[i];
            if now < r.until {
                kept.push(r);
            }
            i = i + 1;
        }
        assert(self.recent_internal_focus@.take(self.recent_internal_focus@.len() as int)
            =~= self.recent_internal_focus@);
        self.recent_internal_focus = kept;
    }

    fn store_recent(&mut self, entry: RecentFocus)
        ensures
            final(self)@ == (Wm { recent: with_recent(old(self)@.recent, entry), ..old(self)@ }),
    {
        let ghost p = is_focus_of(entry.id, entry.pid);
        let mut i: usize = 0;
        while i < self.recent_internal_focus.len()
            invariant
                p == is_focus_of(entry.id, entry.pid),
                i <= self.recent_internal_focus@.len(),
                forall|j: int| 0 <= j < i ==> !p(#[trigger] self.recent_internal_focus@[j]),
                *self == *old(self),
            decreases self.recent_internal_focus.len() - i,
        {
            let r: RecentFocus = self.recent_internal_focus[i];
            if r.id == entry.id && r.pid == entry.pid {
                proof {
                    lemma_first_where(self@.recent, p, i as int);
                }
                self.recent_internal_focus[i] = entry;
                return ;
            }
            i = i + 1;
        }
        proof {
            lemma_first_where_none(self@.recent, p);
        }
        if self.recent_internal_focus.len() >= RECENT_FOCUS_CAPACITY {
            let _ = self.recent_internal_focus.remove(0);
        }
        self.recent_internal_focus.push(entry);
    }

    /// Keeps an own focus change to a known window.
    pub fn mark_internal_focus(&mut self, id: WindowId)
        ensures
            final(self)@ == old(self)@.marked(id),
    {
        let pid: i32 = match self.registry.get(id) {
            Some(w) => w.app_pid,
            None => {
                return ;
            },
        };
        self.prune_recent_internal_focus();
        let until: u64 = time_after(self.now, RECENT_FOCUS_TTL);
        self.store_recent(RecentFocus { id, pid, until });
    }

    /// Drops foreign focus changes for a while.
    pub fn arm_workspace_switch_silence(&mut self)
        ensures
            final(self)@ == old(self)@.silenced(),
    {
        self.workspace_switch_silence_until = Some(
            time_after(self.now, WORKSPACE_SWITCH_SILENCE),
        );
    }

    pub fn is_in_workspace_switch_silence(&mut self) -> (r: bool)
        ensures
            final(self)@ == old(self)@.silence_checked(),
            r == old(self)@.is_silent(),
    {
        match self.workspace_switch_silence_until {
            Some(until) => {
                if self.now >= until {
                    self.workspace_switch_silence_until = None;
                    false
                } else {
                    true
                }
            },
            None => false,
        }
    }

    /// Whether a report of a focus is an echo of an own focus change.
    pub fn should_ignore_external_focus(&mut self, pid: i32, requested: Option<WindowId>) -> (r:
        bool)
        ensures
            final(self)@ == old(self)@.recent_pruned(),
            r == is_echo(old(self)@.recent_pruned().recent, pid, requested),
    {
        self.prune_recent_internal_focus();
        let mut i: usize = 0;
        while i < self.recent_internal_focus.len()
            invariant
                i <= self.recent_internal_focus@.len(),
                forall|j: int|
                    0 <= j < i ==> match requested {
                        Some(id) => (#[trigger] self.recent_internal_focus@[j]).id != id,
                        None => self.recent_internal_focus@[j].pid != pid,
                    },
                self@ == old(self)@.recent_pruned(),
            decreases self.recent_internal_focus.len() - i,
        {
            let entry: RecentFocus = self.recent_internal_focus[i];
            assert(self@.recent[i as int] == entry);
            match requested {
                Some(id) => {
                    if entry.id == id {
                        return true;
                    }
                },
                None => {
                    if entry.pid == pid {
                        return true;
                    }
                },
            }
            i = i + 1;
        }
        false
    }

    /// Moves the mouse to the middle of a rectangle.
    pub fn warp_to_center(&mut self, rect: &Rect)
        ensures
            final(self)@ == old(self)@.warped(*rect),
    {
        self.emit(warp_effect(rect));
        self.ffm_cooldown_until = Some(time_after(self.now, WARP_COOLDOWN));
    }

    /// Gives a window the focus and brings it to the front.
    pub fn focus_window(&mut self, id: WindowId)
        requires
            old(self)@.sound(),
            old(self)@.home_of(id) is None ==> old(self)@.ready(),
        ensures
            final(self)@ == old(self)@.focused_on(id, true),
            final(self)@.sound(),
            old(self)@.ready() ==> final(self)@.ready(),
            final(self)@.workspaces.len() == old(self)@.workspaces.len(),
    {
        self.focus_window_impl(id, true);
    }

    /// Gives a window the focus; with `activate_app` it also comes to the front.
    pub fn focus_window_impl(&mut self, id: WindowId, activate_app: bool)
        requires
            old(self)@.sound(),
            old(self)@.home_of(id) is None ==> old(self)@.ready(),
        ensures
            final(self)@ == old(self)@.focused_on(id, activate_app),
            final(self)@.sound(),
            old(self)@.ready() ==> final(self)@.ready(),
            final(self)@.workspaces.len() == old(self)@.workspaces.len(),
    {
        reveal(Wm::focused_on);
        if activate_app {
            self.mark_internal_focus(id);
            let pid: Option<i32> = match self.registry.get(id) {
                Some(w) => Some(w.app_pid),
                None => None,
            };
            self.emit(Effect::Activate { id, pid });
        }
        let home: usize = match self.workspaces.find_window(id) {
            Some(idx) => idx,
            None => self.active_ws_idx(),
        };
        let old_focused: Option<WindowId> = self.workspaces.get(home).focused;
        let stack_changed: bool = self.give_focus(home, id);
        if stack_changed {
            self.apply_layout();
        }
        self.restack_floating_windows(home);
        self.emit_focus_borders(old_focused, id);
    }

    /// Gives a window the focus in a workspace; says whether it is in a stack.
    fn give_focus(&mut self, ws_idx: usize, id: WindowId) -> (r: bool)
        requires
            ws_idx < old(self)@.workspaces.len(),
        ensures
            final(self)@ == old(self)@.with_ws(
                ws_idx,
                old(self)@.workspaces[ws_idx as int].focus_given(id),
            ),
            r == old(self)@.workspaces[ws_idx as int].tree.in_stack(id),
            old(self)@.sound() ==> final(self)@.sound(),
            old(self)@.ready() ==> final(self)@.ready(),
    {
        let ws = self.workspaces.get_mut(ws_idx);
        let _ = ws.raise_floating(id);
        let in_stack: bool = ws.tree.set_stack_active(id);
        ws.record_focus(id);
        in_stack
    }

    fn emit_focus_borders(&mut self, before: Option<WindowId>, id: WindowId)
        ensures
            final(self)@ == old(self)@.did(old(self)@.focus_borders(before, id)),
    {
        let ghost start = self@;
        let same: bool = match before {
            Some(w) => w == id,
            None => false,
        };
        if !self.borders_enabled || same {
            assert(self@ =~= start.did(start.focus_borders(before, id)));
            return ;
        }
        if let Some(w) = before {
            if let Some(win) = self.registry.get(w) {
                let rect = Rect::new(win.x, win.y, win.width, win.height);
                self.emit(Effect::Border { id: w, rect, focused: false });
            }
        }
        if let Some(win) = self.registry.get(id) {
            let rect = Rect::new(win.x, win.y, win.width, win.height);
            self.emit(Effect::Border { id, rect, focused: true });
        }
        assert(self@ =~= start.did(start.focus_borders(before, id)));
    }

    /// Puts the overlay of a monitor away.
    pub fn dismiss_special_on_monitor(&mut self, monitor_idx: usize)
        requires
            old(self)@.sound(),
        ensures
            final(self)@ == old(self)@.special_dismissed(monitor_idx),
            final(self)@.sound(),
    {
        let special_idx: usize = match self.special_on(monitor_idx) {
            Some(idx) => idx,
            None => {
                return ;
            },
        };
        let wids = self.workspaces.get(special_idx).all_window_ids();
        self.active_specials[monitor_idx] = None;
        self.sync_workspace_visibility();
        self.hide_windows(&wids);
    }

    /// Lets the mouse follow the focus to a window of a workspace.
    pub fn sync_mouse_after_focus(&mut self, ws_idx: usize, id: WindowId)
        requires
            old(self)@.sound(),
            old(self)@.mouse_follows_focus && old(self)@.showing(ws_idx) is None ==> old(self)@.ready(),
            ws_idx < old(self)@.workspaces.len(),
        ensures
            final(self)@ == old(self)@.mouse_synced(ws_idx, id),
            final(self)@.sound(),
            old(self)@.ready() ==> final(self)@.ready(),
            final(self)@.workspaces.len() == old(self)@.workspaces.len(),
    {
        self.ffm_last_window = Some(id);
        if !self.mouse_follows_focus {
            return ;
        }
        let rect: Rect = match self.monitor_showing_workspace(ws_idx) {
            Some(mi) => self.monitor_rect(mi),
            None => self.focused_rect(),
        };
        let geoms = self.workspace_focus_geometries(ws_idx, rect);
        match find_rect(&geoms, id) {
            Some(target_rect) => self.warp_to_center(&target_rect),
            None => self.warp_to_center(&rect),
        }
    }

    /// Whether a window can take over a foreign focus.
    pub fn is_external_focus_candidate(&self, id: WindowId) -> (r: bool)
        ensures
            r == self@.is_candidate(id),
    {
        match self.registry.get(id) {
            Some(w) => !w.minimized && self.workspaces.find_window(id).is_some(),
            None => false,
        }
    }

    /// The window of an application that last had the focus in a workspace.
    pub fn find_pid_target_in_workspace(&self, ws_idx: usize, pid: i32) -> (r: Option<WindowId>)
        requires
            ws_idx < self@.workspaces.len(),
        ensures
            r == self@.pid_target_in(ws_idx, pid),
    {
        let ws = self.workspaces.get(ws_idx);
        let ghost history = self@.workspaces[ws_idx as int].focus_history;
        let ghost p = self@.is_candidate_of(pid);
        let mut i: usize = ws.focus_history.len();
        while i > 0
            invariant
                ws@ == self@.workspaces[ws_idx as int],
                history == self@.workspaces[ws_idx as int].focus_history,
                p == self@.is_candidate_of(pid),
                i <= history.len(),
                forall|j: int| i <= j < history.len() ==> !p(#[trigger] history[j]),
            decreases i,
        {
            i = i - 1;
            let wid: WindowId = ws.focus_history[i];
            let ours: bool = match self.registry.get(wid) {
                Some(w) => w.app_pid == pid,
                None => false,
            };
            assert(history[i as int] == wid);
            if ours && self.is_external_focus_candidate(wid) {
                proof {
                    assert(is_last_where(history, p, i as int));
                    lemma_last_where(history, p, i as int);
                }
                return Some(wid);
            }
        }
        proof {
            assert forall|j: int| !is_last_where(history, p, j) by {}
        }
        None
    }

    fn find_offer(&self, pid: i32, shown: bool, except: Option<usize>) -> (r: Option<WindowId>)
        requires
            self@.sound(),
        ensures
            r == (match least(
                self@.workspaces.len() as int,
                self@.offers(pid, shown, except),
            ) {
                Some(i) => self@.pid_target_in(i as usize, pid),
                None => None,
            }),
            r is None == least(
                self@.workspaces.len() as int,
                self@.offers(pid, shown, except),
            ) is None,
    {
        let ghost p = self@.offers(pid, shown, except);
        let n: usize = self.workspaces.count();
        let mut i: usize = 0;
        while i < n
            invariant
                p == self@.offers(pid, shown, except),
                n == self@.workspaces.len(),
                i <= n,
                forall|j: int| 0 <= j < i ==> !#[trigger] p(j),
            decreases n - i,
        {
            let skip: bool = match except {
                Some(e) => e == i,
                None => false,
            };
            if !skip && self.monitor_showing_workspace(i).is_some() == shown {
                if let Some(wid) = self.find_pid_target_in_workspace(i, pid) {
                    proof {
                        assert(p(i as int));
                        lemma_least(n as int, p, i as int);
                    }
                    return Some(wid);
                }
            }
            assert(!p(i as int));
            i = i + 1;
        }
        proof {
            lemma_least_none(n as int, p);
        }
        None
    }

    fn find_known_candidate(&self, pid: i32) -> (r: Option<WindowId>)
        ensures
            r == (match first_where(self@.registry, self@.is_known_candidate(pid)) {
                Some(i) => Some(self@.registry[i].id),
                None => None,
            }),
    {
        let ghost p = self@.is_known_candidate(pid);
        let ghost known = self@.registry;
        let mut i: usize = 0;
        while i < self.registry.windows.len()
            invariant
                p == self@.is_known_candidate(pid),
                known == self@.registry,
                known.len() == self.registry.windows@.len(),
                i <= known.len(),
                forall|j: int| 0 <= j < i ==> !p(#[trigger] known[j]),
            decreases known.len() - i,
        {
            let id: WindowId = self.registry.windows[i].id;
            assert(known[i as int] == self.registry.windows@[i as int]@);
            if self.registry.windows[i].app_pid == pid && self.is_external_focus_candidate(id) {
                proof {
                    lemma_first_where(known, p, i as int);
                }
                return Some(id);
            }
            i = i + 1;
        }
        proof {
            lemma_first_where_none(known, p);
        }
        None
    }

    /// The window that takes over a foreign focus.
    pub fn resolve_external_focus_target(&self, pid: i32, requested: Option<WindowId>) -> (r:
        Option<WindowId>)
        requires
            self@.sound(),
        ensures
            r == self@.external_target(pid, requested),
    {
        if let Some(id) = requested {
            if self.is_external_focus_candidate(id) {
                return Some(id);
            }
        }
        let active: Option<usize> = if self.focused_monitor < self.monitors.len() {
            Some(self.monitors[self.focused_monitor].active_workspace)
        } else {
            None
        };
        if let Some(ws_idx) = active {
            let found = self.find_pid_target_in_workspace(ws_idx, pid);
            if found.is_some() {
                return found;
            }
        }
        let shown = self.find_offer(pid, true, active);
        if shown.is_some() {
            return shown;
        }
        let hidden = self.find_offer(pid, false, None);
        if hidden.is_some() {
            return hidden;
        }
        self.find_known_candidate(pid)
    }
}

} // verus!
