//! Showing and hiding the windows of workspaces.
use vstd::prelude::*;
use crate::seqs::first_where;
use crate::wm::effects::{
    borders_of, fades_of, fits_of, float_geometries, float_rects, hide_spot, lifts_of,
    shows_above_of, shows_of, spot_for, Effect,
};
use crate::wm::geometry::Rect;
use crate::wm::monitor::{find_display, is_display};
use crate::wm::state::{at, Wm, WmState};
use crate::wm::window::{window_of, WindowId};

verus! {

/// The width of a window of which nothing is known.
pub const UNKNOWN_WIDTH: i64 = 2_048_000;

/// A coordinate beyond every desk.
pub const FAR_AWAY: i64 = -32_000_000;

/// Where windows are hidden while there is no monitor.
pub open spec fn nowhere() -> Rect {
    Rect { x: FAR_AWAY, y: FAR_AWAY, width: 1000, height: 1000 }
}

impl Wm {
    /// Shows the workspace of a monitor: the tiles, the floating windows, and
    /// these on top.
    pub open spec fn monitor_layout(self, mi: int) -> Seq<Effect> {
        let ws_idx = self.monitors[mi].active_workspace;
        let floating = self.workspaces[ws_idx as int].floating;
        shows_of(self.tiles(ws_idx, self.rect_on(mi as usize))) + shows_of(
            float_geometries(floating),
        ) + lifts_of(floating)
    }

    /// Shows the workspaces of the first `n` monitors.
    pub open spec fn layout_upto(self, n: int) -> Seq<Effect>
        decreases n,
    {
        if n <= 0 {
            seq![]
        } else {
            self.layout_upto(n - 1) + self.monitor_layout(n - 1)
        }
    }

    /// Shows every workspace that a monitor shows.
    pub open spec fn laid_out(self) -> Wm {
        self.did(self.layout_upto(self.monitors.len() as int))
    }

    /// Lays out twice: the first time windows get to their monitor, the second
    /// time they get their size there.
    pub open spec fn laid_out_twice(self) -> Wm {
        self.laid_out().did(seq![Effect::Pause { ms: 50 }]).laid_out()
    }

    /// Draws the borders on a monitor.
    pub open spec fn monitor_borders(self, mi: int) -> Seq<Effect> {
        let ws_idx = self.monitors[mi].active_workspace;
        let ws = self.workspaces[ws_idx as int];
        borders_of(self.focus_tiles(ws_idx, self.rect_on(mi as usize)), ws.focused) + borders_of(
            float_geometries(ws.floating),
            ws.focused,
        )
    }

    pub open spec fn borders_upto(self, n: int) -> Seq<Effect>
        decreases n,
    {
        if n <= 0 {
            seq![]
        } else {
            self.borders_upto(n - 1) + self.monitor_borders(n - 1)
        }
    }

    /// Draws the borders of all windows that are shown, if there are to be any.
    pub open spec fn bordered(self) -> Wm {
        if self.borders {
            self.did(self.borders_upto(self.monitors.len() as int))
        } else {
            self
        }
    }

    /// The monitor at which a window is hidden: the one that shows its
    /// workspace, or did so last, or else the focused one.
    pub open spec fn hide_monitor(self, id: WindowId) -> Option<usize> {
        let last = (self.monitors.len() - 1) as usize;
        let fallback = if self.focused_monitor < last { self.focused_monitor } else { last };
        if self.monitors.len() == 0 {
            None
        } else {
            match self.home_of(id) {
                None => Some(fallback),
                Some(ws_idx) => {
                    let ws = self.workspaces[ws_idx as int];
                    let known = match ws.last_display_id {
                        Some(d) => at(first_where(self.monitors, is_display(d))),
                        None => None,
                    };
                    if self.showing(ws_idx) is Some {
                        self.showing(ws_idx)
                    } else if ws.last_monitor is Some && ws.last_monitor->0
                        < self.monitors.len() {
                        ws.last_monitor
                    } else if known is Some {
                        known
                    } else {
                        Some(fallback)
                    }
                },
            }
        }
    }

    /// The frame at which a window is hidden and its monitor.
    pub open spec fn hide_anchor(self, id: WindowId) -> (Rect, Option<usize>) {
        match self.hide_monitor(id) {
            Some(mi) => (self.monitors[mi as int].frame, Some(mi)),
            None => (nowhere(), None),
        }
    }

    /// Hides a window at a frame.
    pub open spec fn hide_at(self, id: WindowId, frame: Rect, mi: Option<usize>) -> Effect {
        Effect::Hide {
            id,
            spot: spot_for(frame, mi, self.monitors),
            width: match window_of(self.registry, id) {
                Some(w) => w.width,
                None => UNKNOWN_WIDTH,
            },
        }
    }

    /// Hides a window at its own monitor.
    pub open spec fn hide_of(self, id: WindowId) -> Effect {
        self.hide_at(id, self.hide_anchor(id).0, self.hide_anchor(id).1)
    }

    /// Hides windows, each at its own monitor.
    pub open spec fn hides_of(self, ids: Seq<WindowId>) -> Seq<Effect> {
        Seq::new(ids.len(), |i: int| self.hide_of(ids[i]))
    }

    /// Hides windows at one monitor.
    pub open spec fn hides_on(self, ids: Seq<WindowId>, mi: usize) -> Seq<Effect> {
        Seq::new(
            ids.len(),
            |i: int| self.hide_at(ids[i], self.monitors[mi as int].frame, Some(mi)),
        )
    }

    /// Hides the windows of those of the first `n` workspaces that cannot be
    /// seen; with `regular_only`, of those that no monitor shows.
    pub open spec fn hides_upto(self, n: int, regular_only: bool) -> Seq<Effect>
        decreases n,
    {
        if n <= 0 {
            seq![]
        } else {
            let i = (n - 1) as usize;
            let stays = if regular_only { self.showing(i) is Some } else { self.is_visible(i) };
            self.hides_upto(n - 1, regular_only) + if stays {
                seq![]
            } else {
                self.hides_of(self.workspaces[n - 1].window_ids())
            }
        }
    }

    /// Hides every window that cannot be seen.
    pub open spec fn unseen_hidden(self) -> Wm {
        self.did(self.hides_upto(self.workspaces.len() as int, false))
    }

    /// Hides every window whose workspace no monitor shows.
    pub open spec fn unshown_hidden(self) -> Wm {
        self.did(self.hides_upto(self.workspaces.len() as int, true))
    }
}

impl WmState {
    /// Asks for one effect more.
    pub fn emit(&mut self, effect: Effect)
        ensures
            final(self)@ == old(self)@.did(seq![effect]),
    {
        self.effects.push(effect);
        assert(self@.effects =~= old(self)@.effects + seq![effect]);
    }

    pub fn emit_shows(&mut self, geometries: &Vec<(WindowId, Rect)>)
        ensures
            final(self)@ == old(self)@.did(shows_of(geometries@)),
    {
        let ghost before = self@;
        let mut i: usize = 0;
        assert(self@ =~= before.did(shows_of(geometries@.take(0))));
        while i < geometries.len()
            invariant
                i <= geometries@.len(),
                self@ == before.did(shows_of(geometries@.take(i as int))),
            decreases geometries.len() - i,
        {
            let (id, rect) = geometries[i];
            self.emit(Effect::Show { id, rect });
            i = i + 1;
            assert(self@ =~= before.did(shows_of(geometries@.take(i as int))));
        }
        assert(geometries@.take(geometries@.len() as int) =~= geometries@);
    }

    pub fn emit_shows_above(&mut self, geometries: &Vec<(WindowId, Rect)>)
        ensures
            final(self)@ == old(self)@.did(shows_above_of(geometries@)),
    {
        let ghost before = self@;
        let mut i: usize = 0;
        assert(self@ =~= before.did(shows_above_of(geometries@.take(0))));
        while i < geometries.len()
            invariant
                i <= geometries@.len(),
                self@ == before.did(shows_above_of(geometries@.take(i as int))),
            decreases geometries.len() - i,
        {
            let (id, rect) = geometries[i];
            self.emit(Effect::ShowAbove { id, rect });
            i = i + 1;
            assert(self@ =~= before.did(shows_above_of(geometries@.take(i as int))));
        }
        assert(geometries@.take(geometries@.len() as int) =~= geometries@);
    }

    pub fn emit_fits(&mut self, geometries: &Vec<(WindowId, Rect)>)
        ensures
            final(self)@ == old(self)@.did(fits_of(geometries@)),
    {
        let ghost before = self@;
        let mut i: usize = 0;
        assert(self@ =~= before.did(fits_of(geometries@.take(0))));
        while i < geometries.len()
            invariant
                i <= geometries@.len(),
                self@ == before.did(fits_of(geometries@.take(i as int))),
            decreases geometries.len() - i,
        {
            let (id, rect) = geometries[i];
            self.emit(Effect::Fit { id, rect });
            i = i + 1;
            assert(self@ =~= before.did(fits_of(geometries@.take(i as int))));
        }
        assert(geometries@.take(geometries@.len() as int) =~= geometries@);
    }

    pub fn emit_borders(&mut self, geometries: &Vec<(WindowId, Rect)>, focused: Option<WindowId>)
        ensures
            final(self)@ == old(self)@.did(borders_of(geometries@, focused)),
    {
        let ghost before = self@;
        let mut i: usize = 0;
        assert(self@ =~= before.did(borders_of(geometries@.take(0), focused)));
        while i < geometries.len()
            invariant
                i <= geometries@.len(),
                self@ == before.did(borders_of(geometries@.take(i as int), focused)),
            decreases geometries.len() - i,
        {
            let (id, rect) = geometries[i];
            let has_focus: bool = match focused {
                Some(f) => f == id,
                None => false,
            };
            self.emit(Effect::Border { id, rect, focused: has_focus });
            i = i + 1;
            assert(self@ =~= before.did(borders_of(geometries@.take(i as int), focused)));
        }
        assert(geometries@.take(geometries@.len() as int) =~= geometries@);
    }

    /// Raises the floating windows of a workspace, the top one last.
    pub fn restack_floating_windows(&mut self, ws_idx: usize)
        requires
            ws_idx < old(self)@.workspaces.len(),
        ensures
            final(self)@ == old(self)@.did(
                lifts_of(old(self)@.workspaces[ws_idx as int].floating),
            ),
    {
        let ghost before = self@;
        let ghost floating = self@.workspaces[ws_idx as int].floating;
        let mut i: usize = 0;
        assert(self@ =~= before.did(lifts_of(floating.take(0))));
        while i < self.workspaces.get(ws_idx).floating.len()
            invariant
                ws_idx < before.workspaces.len(),
                floating == before.workspaces[ws_idx as int].floating,
                i <= floating.len(),
                self@ == before.did(lifts_of(floating.take(i as int))),
            decreases floating.len() - i,
        {
            let id: WindowId = self.workspaces.get(ws_idx).floating[i].id;
            self.emit(Effect::Lift { id });
            i = i + 1;
            assert(self@ =~= before.did(lifts_of(floating.take(i as int))));
        }
        assert(floating.take(floating.len() as int) =~= floating);
    }

    /// Shows every workspace that a monitor shows.
    pub fn apply_layout(&mut self)
        requires
            old(self)@.sound(),
        ensures
            final(self)@ == old(self)@.laid_out(),
            final(self)@.sound(),
    {
        let ghost before = self@;
        let mut mi: usize = 0;
        assert(self@ =~= before.did(before.layout_upto(0)));
        while mi < self.monitors.len()
            invariant
                before.sound(),
                mi <= before.monitors.len(),
                self@ == before.did(before.layout_upto(mi as int)),
            decreases before.monitors.len() - mi,
        {
            let ws_idx: usize = self.monitors[mi].active_workspace;
            let screen_rect: Rect = self.monitor_rect(mi);
            let geometries = self.workspace_render_geometries(ws_idx, screen_rect);
            let floating = float_rects(&self.workspaces.get(ws_idx).floating);
            self.emit_shows(&geometries);
            self.emit_shows(&floating);
            self.restack_floating_windows(ws_idx);
            mi = mi + 1;
            assert(self@ =~= before.did(before.layout_upto(mi as int)));
        }
    }

    /// Lays out, waits, and lays out again.
    pub fn apply_layout_twice(&mut self)
        requires
            old(self)@.sound(),
        ensures
            final(self)@ == old(self)@.laid_out_twice(),
            final(self)@.sound(),
    {
        self.apply_layout();
        self.emit(Effect::Pause { ms: 50 });
        self.apply_layout();
    }

    /// Draws the borders of all windows that are shown.
    pub fn update_borders(&mut self)
        requires
            old(self)@.sound(),
        ensures
            final(self)@ == old(self)@.bordered(),
            final(self)@.sound(),
    {
        if !self.borders_enabled {
            return;
        }
        let ghost before = self@;
        let mut mi: usize = 0;
        assert(self@ =~= before.did(before.borders_upto(0)));
        while mi < self.monitors.len()
            invariant
                before.sound(),
                mi <= before.monitors.len(),
                self@ == before.did(before.borders_upto(mi as int)),
            decreases before.monitors.len() - mi,
        {
            let ws_idx: usize = self.monitors[mi].active_workspace;
            let rect: Rect = self.monitor_rect(mi);
            let geometries = self.workspace_focus_geometries(ws_idx, rect);
            let floating = float_rects(&self.workspaces.get(ws_idx).floating);
            let focused: Option<WindowId> = self.workspaces.get(ws_idx).focused;
            self.emit_borders(&geometries, focused);
            self.emit_borders(&floating, focused);
            mi = mi + 1;
            assert(self@ =~= before.did(before.borders_upto(mi as int)));
        }
    }

    /// The frame at which a window is hidden and its monitor.
    pub fn hide_anchor_frame(&self, wid: WindowId) -> (r: (Rect, Option<usize>))
        ensures
            r == self@.hide_anchor(wid),
    {
        if self.monitors.len() == 0 {
            return (
                Rect { x: FAR_AWAY, y: FAR_AWAY, width: 1000, height: 1000 },
                None,
            );
        }
        if let Some(ws_idx) = self.workspaces.find_window(wid) {
            if let Some(mi) = self.monitor_showing_workspace(ws_idx) {
                return (self.monitors[mi].frame, Some(mi));
            }
            let ws = self.workspaces.get(ws_idx);
            if let Some(mi) = ws.last_monitor {
                if mi < self.monitors.len() {
                    return (self.monitors[mi].frame, Some(mi));
                }
            }
            if let Some(display_id) = ws.last_display_id {
                if let Some(mi) = find_display(&self.monitors, display_id) {
                    return (self.monitors[mi].frame, Some(mi));
                }
            }
        }
        let last: usize = self.monitors.len() - 1;
        let mi: usize = if self.focused_monitor < last {
            self.focused_monitor
        } else {
            last
        };
        (self.monitors[mi].frame, Some(mi))
    }

    /// Hides a window at a frame.
    pub fn hide_window_on_frame(
        &mut self,
        wid: WindowId,
        hide_frame: Rect,
        monitor_idx: Option<usize>,
    )
        ensures
            final(self)@ == old(self)@.did(
                seq![old(self)@.hide_at(wid, hide_frame, monitor_idx)],
            ),
    {
        let spot = hide_spot(hide_frame, monitor_idx, &self.monitors);
        let width: i64 = match self.registry.get(wid) {
            Some(w) => w.width,
            None => UNKNOWN_WIDTH,
        };
        self.emit(Effect::Hide { id: wid, spot, width });
    }

    /// Hides a window at its own monitor.
    pub fn hide_window(&mut self, wid: WindowId)
        ensures
            final(self)@ == old(self)@.did(seq![old(self)@.hide_of(wid)]),
    {
        let (frame, mi) = self.hide_anchor_frame(wid);
        self.hide_window_on_frame(wid, frame, mi);
    }

    /// Hides windows, each at its own monitor.
    pub fn hide_windows(&mut self, ids: &Vec<WindowId>)
        ensures
            final(self)@ == old(self)@.did(old(self)@.hides_of(ids@)),
    {
        let ghost before = self@;
        let mut i: usize = 0;
        assert(self@ =~= before.did(before.hides_of(ids@.take(0))));
        while i < ids.len()
            invariant
                i <= ids@.len(),
                self@ == before.did(before.hides_of(ids@.take(i as int))),
            decreases ids.len() - i,
        {
            self.hide_window(ids[i]);
            assert(self@.effects.last() == before.hide_of(ids@[i as int]));
            i = i + 1;
            assert(self@ =~= before.did(before.hides_of(ids@.take(i as int))));
        }
        assert(ids@.take(ids@.len() as int) =~= ids@);
    }

    /// Hides the windows of a workspace at a monitor.
    pub fn hide_workspace_windows(&mut self, ws_idx: usize, monitor_idx: usize)
        requires
            ws_idx < old(self)@.workspaces.len(),
            monitor_idx < old(self)@.monitors.len(),
        ensures
            final(self)@ == old(self)@.did(
                old(self)@.hides_on(
                    old(self)@.workspaces[ws_idx as int].window_ids(),
                    monitor_idx,
                ),
            ),
    {
        let frame: Rect = self.monitors[monitor_idx].frame;
        let ids = self.workspaces.get(ws_idx).all_window_ids();
        let ghost before = self@;
        let mut i: usize = 0;
        assert(self@ =~= before.did(before.hides_on(ids@.take(0), monitor_idx)));
        while i < ids.len()
            invariant
                monitor_idx < before.monitors.len(),
                frame == before.monitors[monitor_idx as int].frame,
                i <= ids@.len(),
                self@ == before.did(before.hides_on(ids@.take(i as int), monitor_idx)),
            decreases ids.len() - i,
        {
            self.hide_window_on_frame(ids[i], frame, Some(monitor_idx));
            i = i + 1;
            assert(self@ =~= before.did(before.hides_on(ids@.take(i as int), monitor_idx)));
        }
        assert(ids@.take(ids@.len() as int) =~= ids@);
    }

    /// Makes the windows of a workspace transparent.
    pub fn hide_workspace_windows_immediate(&mut self, ws_idx: usize)
        requires
            ws_idx < old(self)@.workspaces.len(),
        ensures
            final(self)@ == old(self)@.did(
                fades_of(old(self)@.workspaces[ws_idx as int].window_ids()),
            ),
    {
        let ids = self.workspaces.get(ws_idx).all_window_ids();
        let ghost before = self@;
        let mut i: usize = 0;
        assert(self@ =~= before.did(fades_of(ids@.take(0))));
        while i < ids.len()
            invariant
                i <= ids@.len(),
                self@ == before.did(fades_of(ids@.take(i as int))),
            decreases ids.len() - i,
        {
            self.emit(Effect::Fade { id: ids[i] });
            i = i + 1;
            assert(self@ =~= before.did(fades_of(ids@.take(i as int))));
        }
        assert(ids@.take(ids@.len() as int) =~= ids@);
    }

    fn hide_unseen(&mut self, regular_only: bool)
        requires
            old(self)@.sound(),
        ensures
            final(self)@ == old(self)@.did(
                old(self)@.hides_upto(old(self)@.workspaces.len() as int, regular_only),
            ),
            final(self)@.sound(),
    {
        let ghost before = self@;
        let n: usize = self.workspaces.count();
        let mut i: usize = 0;
        assert(self@ =~= before.did(before.hides_upto(0, regular_only)));
        while i < n
            invariant
                before.sound(),
                n == before.workspaces.len(),
                i <= n,
                self@ == before.did(before.hides_upto(i as int, regular_only)),
            decreases n - i,
        {
            let stays: bool = if regular_only {
                self.monitor_showing_workspace(i).is_some()
            } else {
                self.workspace_is_effectively_visible(i)
            };
            let ghost mid = self@;
            if !stays {
                let ids = self.workspaces.get(i).all_window_ids();
                self.hide_windows(&ids);
                assert(mid.hides_of(ids@) =~= before.hides_of(ids@));
            }
            i = i + 1;
            assert(self@ =~= before.did(before.hides_upto(i as int, regular_only)));
        }
    }

    /// Hides every window that cannot be seen.
    pub fn enforce_hidden_workspaces(&mut self)
        requires
            old(self)@.sound(),
        ensures
            final(self)@ == old(self)@.unseen_hidden(),
            final(self)@.sound(),
    {
        self.hide_unseen(false);
    }

    /// Hides every window whose workspace no monitor shows.
    pub fn hide_unshown_workspaces(&mut self)
        requires
            old(self)@.sound(),
        ensures
            final(self)@ == old(self)@.unshown_hidden(),
            final(self)@.sound(),
    {
        self.hide_unseen(true);
    }
}

} // verus!
