//! Moving the focus and windows by direction, by mouse and by drag.
use vstd::prelude::*;
use crate::seqs::{
    first_where, is_last_where, last_where, lemma_first_where, lemma_first_where_none,
    lemma_last_where, position_u32,
};
use crate::wm::adjacency::{abs, find_rect, nearest, neighbours, rect_of};
use crate::wm::effects::{lifts_of, warp_effect, warp_to, Effect};
use crate::wm::focus::{after, remembered_target, time_after, WARP_COOLDOWN};
use crate::wm::geometry::{fit, fit_i64, Direction, Rect};
use crate::wm::monitor::{has_point, index_at_point, next_index_nowrap, prev_index_nowrap, Monitor};
use crate::wm::state::{DragMode, DragState, Wm, WmState};
use crate::wm::switching::{overlay_geometry, overlay_rect};
use crate::wm::tree::Node;
use crate::wm::tree_laws::{
    law_cycle_stops_at_end, law_outside_stack, law_reorder_stops_at_end, law_resize_needs_split,
};
use crate::wm::window::WindowId;
use crate::wm::workspace::{is_float_of, FloatingWindow, Workspace, WorkspaceId, Ws, WsId};

verus! {

/// How far a tile may be from the edge of the screen and still touch it, beside
/// the outer gap.
pub const EDGE_TOLERANCE: i64 = 2000;

/// Thousandths by which one step of resizing moves a split.
pub const RESIZE_STEP: i64 = 50;

/// The least size to which a window can be dragged.
pub const MIN_DRAG_WIDTH: i64 = 200_000;

pub const MIN_DRAG_HEIGHT: i64 = 100_000;

pub open spec fn is_sideways(direction: Direction) -> bool {
    direction == Direction::Left || direction == Direction::Right
}

/// Whether a tile touches the edge of the screen in a direction.
pub open spec fn touches_edge(rect: Rect, screen: Rect, direction: Direction, slack: int) -> bool {
    match direction {
        Direction::Right => rect.x + rect.width >= screen.x + screen.width - slack,
        Direction::Left => rect.x <= screen.x + slack,
        Direction::Down => rect.y + rect.height >= screen.y + screen.height - slack,
        Direction::Up => rect.y <= screen.y + slack,
    }
}

/// Tells floating windows under a point.
pub open spec fn float_at(x: int, y: int) -> spec_fn(FloatingWindow) -> bool {
    |f: FloatingWindow| f.geometry.has_point(x, y)
}

/// Tells tiles under a point.
pub open spec fn tile_at(x: int, y: int) -> spec_fn((WindowId, Rect)) -> bool {
    |t: (WindowId, Rect)| t.1.has_point(x, y)
}

/// The topmost window under a point: a floating one before a tiled one.
pub open spec fn window_at(
    floating: Seq<FloatingWindow>,
    tiles: Seq<(WindowId, Rect)>,
    x: int,
    y: int,
) -> Option<WindowId> {
    match last_where(floating, float_at(x, y)) {
        Some(i) => Some(floating[i].id),
        None => match last_where(tiles, tile_at(x, y)) {
            Some(i) => Some(tiles[i].0),
            None => None,
        },
    }
}

/// How far the middle of a monitor is from a point, from left to right.
pub open spec fn sideways_distance(m: Monitor, x: int) -> int {
    abs(2 * x - m.frame.twice_center_x()) / 2
}

/// Monitor `i` is the first of those nearest to a point.
pub open spec fn is_nearest_monitor(monitors: Seq<Monitor>, x: int, i: int) -> bool {
    &&& 0 <= i < monitors.len()
    &&& forall|j: int|
        0 <= j < monitors.len() ==> sideways_distance(monitors[i], x)
            <= #[trigger] sideways_distance(monitors[j], x)
    &&& forall|j: int|
        0 <= j < i ==> sideways_distance(monitors[i], x) < #[trigger] sideways_distance(
            monitors[j],
            x,
        )
}

/// The monitor of a point: the one on which it lies, or else the nearest one.
pub open spec fn monitor_of_point(monitors: Seq<Monitor>, x: int, y: int) -> Option<int> {
    match first_where(monitors, has_point(x, y)) {
        Some(i) => Some(i),
        None => if monitors.len() == 0 {
            None
        } else {
            Some(choose|i: int| is_nearest_monitor(monitors, x, i))
        },
    }
}

proof fn lemma_nearest_monitor(monitors: Seq<Monitor>, x: int, i: int)
    requires
        is_nearest_monitor(monitors, x, i),
    ensures
        (choose|k: int| is_nearest_monitor(monitors, x, k)) == i,
{
    let k = choose|k: int| is_nearest_monitor(monitors, x, k);
    assert(is_nearest_monitor(monitors, x, k));
    assert(sideways_distance(monitors[i], x) <= sideways_distance(monitors[k], x));
    assert(sideways_distance(monitors[k], x) <= sideways_distance(monitors[i], x));
    if k < i {
        assert(sideways_distance(monitors[i], x) < sideways_distance(monitors[k], x));
    } else if i < k {
        assert(sideways_distance(monitors[k], x) < sideways_distance(monitors[i], x));
    }
}

impl Ws {
    /// The first floating entry of a window gets another rectangle.
    pub open spec fn float_placed(self, w: WindowId, geometry: Rect) -> Ws {
        match first_where(self.floating, is_float_of(w)) {
            Some(i) => Ws {
                floating: self.floating.update(i, FloatingWindow { id: w, geometry }),
                ..self
            },
            None => self,
        }
    }

    /// The rectangle of a floating window.
    pub open spec fn float_rect(self, w: WindowId) -> Option<Rect> {
        match first_where(self.floating, is_float_of(w)) {
            Some(i) => Some(self.floating[i].geometry),
            None => None,
        }
    }
}

impl Wm {
    /// Whether a window touches the edge of the focused screen in a direction.
    pub open spec fn at_edge(
        self,
        tiles: Seq<(WindowId, Rect)>,
        w: WindowId,
        direction: Direction,
    ) -> bool {
        match rect_of(tiles, w) {
            Some(rect) => touches_edge(
                rect,
                self.focused_rect(),
                direction,
                self.gap_outer + EDGE_TOLERANCE,
            ),
            None => false,
        }
    }

    /// The monitor to the left or to the right.
    pub open spec fn monitor_towards(self, direction: Direction) -> Option<usize> {
        match direction {
            Direction::Right => if self.focused_monitor + 1 < self.monitors.len() {
                Some((self.focused_monitor + 1) as usize)
            } else {
                None
            },
            Direction::Left => if self.focused_monitor > 0 {
                Some((self.focused_monitor - 1) as usize)
            } else {
                None
            },
            _ => None,
        }
    }

    /// The focus crosses to the monitor beside the focused one, to the window
    /// next to the edge between them.
    pub open spec fn crossed(self, direction: Direction) -> Wm {
        match self.monitor_towards(direction) {
            None => self,
            Some(mi) => {
                let s = Wm { focused_monitor: mi, ..self };
                let screen = s.focused_rect();
                let tiles = s.focus_tiles(s.active_idx(), screen);
                let target = match nearest(tiles, direction) {
                    Some(w) => Some(w),
                    None => s.active().focused,
                };
                match target {
                    Some(w) => {
                        let f = s.focused_on(w, true);
                        if f.mouse_follows_focus {
                            let moved = match rect_of(tiles, w) {
                                Some(rect) => f.did(seq![warp_to(rect)]),
                                None => f,
                            };
                            Wm {
                                cooldown: Some(after(f.now, WARP_COOLDOWN)),
                                hovered: Some(w),
                                ..moved
                            }
                        } else {
                            f
                        }
                    },
                    None => {
                        let bare = Wm { hovered: None, ..s.did(seq![Effect::DeactivateAll]) };
                        if bare.mouse_follows_focus {
                            bare.warped(screen)
                        } else {
                            bare
                        }
                    },
                }
            },
        }
    }

    /// The neighbour to which the focus goes: the one it last came from, if it
    /// is a neighbour still, or else the best one.
    pub open spec fn focus_choice(
        self,
        tiles: Seq<(WindowId, Rect)>,
        from: WindowId,
        direction: Direction,
    ) -> WindowId {
        let all = neighbours(tiles, from, direction);
        match remembered_target(self.memory, from, direction) {
            Some(w) if all.contains(w) => w,
            _ => all[0],
        }
    }

    /// The focus moves in a direction: within a stack, to a neighbour, or to
    /// the next monitor.
    pub open spec fn focus_moved(self, direction: Direction) -> Wm {
        let idx = self.active_idx();
        let forward = direction == Direction::Right;
        let tiles = self.focus_tiles(idx, self.focused_rect());
        match self.active().focused {
            Some(from) => if is_sideways(direction) && self.active().tree.cycle_target(
                from,
                forward,
            ) is Some {
                self.with_ws(
                    idx,
                    Ws { tree: self.active().tree.cycled(from, forward), ..self.active() },
                ).focused_on(self.active().tree.cycle_target(from, forward)->0, true)
            } else if !self.at_edge(tiles, from, direction) && neighbours(
                tiles,
                from,
                direction,
            ).len() > 0 {
                let to = self.focus_choice(tiles, from, direction);
                let s = self.focused_on(to, true).remembered(from, direction, to);
                match rect_of(tiles, to) {
                    Some(rect) if s.mouse_follows_focus => Wm {
                        hovered: Some(to),
                        ..s.warped(rect)
                    },
                    _ => s,
                }
            } else {
                self.crossed(direction)
            },
            None => self.crossed(direction),
        }
    }

    /// The focused window moves in a direction: within its stack, into the
    /// place of its neighbour, or to the next monitor.
    pub open spec fn swap_moved(self, direction: Direction) -> Wm {
        let idx = self.active_idx();
        let ws = self.active();
        let forward = direction == Direction::Right;
        let tiles = self.focus_tiles(idx, self.focused_rect());
        match ws.focused {
            None => self,
            Some(w) => if is_sideways(direction) && ws.tree.can_reorder(w, forward) {
                self.with_ws(idx, Ws { tree: ws.tree.reordered(w, forward), ..ws }).laid_out(
                ).focused_on(w, true)
            } else if !self.at_edge(tiles, w, direction) && neighbours(tiles, w, direction).len()
                > 0 {
                let other = neighbours(tiles, w, direction)[0];
                let s = self.with_ws(idx, Ws { tree: ws.tree.swapped(w, other), ..ws });
                if w != other && ws.tree.windows().contains(w) && ws.tree.windows().contains(
                    other,
                ) {
                    s.laid_out().fix_started()
                } else {
                    s
                }
            } else {
                match self.monitor_towards(direction) {
                    Some(mi) => self.moved_to_monitor(mi),
                    None => self,
                }
            },
        }
    }

    /// The split around the focused window moves in a direction.
    pub open spec fn resize_moved(self, direction: Direction) -> Wm {
        let ws = self.active();
        match ws.focused {
            Some(w) if ws.tree.can_resize(w, direction) => self.with_ws(
                self.active_idx(),
                Ws { tree: ws.tree.resized(w, direction, RESIZE_STEP), ..ws },
            ).laid_out(),
            _ => self,
        }
    }

    /// All splits of the active workspace are even.
    pub open spec fn made_even(self) -> Wm {
        let ws = self.active();
        self.with_ws(self.active_idx(), Ws { tree: ws.tree.equalized(), ..ws }).laid_out()
    }

    /// The focused window changes between tiled and floating.
    pub open spec fn float_switched(self) -> Wm {
        let ws = self.active();
        match ws.focused {
            Some(w) if ws.holds(w) => {
                let changed = ws.float_toggled(w, self.focused_rect());
                let s = self.with_ws(self.active_idx(), changed).laid_out();
                match changed.float_rect(w) {
                    Some(r) => s.did(
                        seq![
                            Effect::Move { id: w, x: r.x, y: r.y },
                            Effect::Resize { id: w, width: r.width, height: r.height },
                            Effect::Level { id: w, floating: true },
                        ],
                    ).did(lifts_of(s.workspaces[s.focus_home(w) as int].floating)),
                    None => s.did(seq![Effect::Level { id: w, floating: false }]),
                }
            },
            _ => self,
        }
    }

    /// A stack operation on the focused window.
    pub open spec fn restacked(self, promote: bool) -> Wm {
        match self.effective_focused() {
            Some(w) => match self.home_of(w) {
                Some(i) => {
                    let ws = self.workspaces[i as int];
                    let tree = if promote {
                        ws.tree.promoted(w)
                    } else {
                        ws.tree.unstacked(w)
                    };
                    if ws.tree.in_stack(w) {
                        self.with_ws(i, Ws { tree, ..ws }).laid_out().focused_on(w, true)
                    } else {
                        self
                    }
                },
                None => self,
            },
            None => self,
        }
    }

    /// The close button of the focused window is pressed.
    pub open spec fn close_asked(self) -> Wm {
        match self.effective_focused() {
            Some(w) => self.did(seq![Effect::Close { id: w }]),
            None => self,
        }
    }

    /// A click gives the focus to the window under it.
    pub open spec fn clicked(self, x: int, y: int) -> Wm {
        let ws = self.active();
        match window_at(ws.floating, self.tiles(self.active_idx(), self.focused_rect()), x, y) {
            Some(w) => {
                let s = Wm { hovered: Some(w), ..self };
                if ws.focused == Some(w) {
                    s
                } else {
                    s.focused_on(w, true)
                }
            },
            None => self,
        }
    }

    /// The name of a special workspace.
    pub open spec fn special_name(self, ws_idx: usize) -> Seq<char> {
        match self.workspaces[ws_idx as int].id {
            WsId::Special(name) => name,
            _ => Seq::empty(),
        }
    }

    /// The window under the mouse; where an overlay is, only its windows count.
    pub open spec fn window_under(self, x: int, y: int) -> Option<WindowId> {
        let mi = self.focused_monitor;
        match self.special_on(mi) {
            Some(i) => window_at(
                self.workspaces[i as int].floating,
                self.focus_tiles(
                    i,
                    overlay_rect(self.rect_on(mi), self.overlay_named(self.special_name(i))),
                ),
                x,
                y,
            ),
            None => window_at(
                self.active().floating,
                self.focus_tiles(self.active_idx(), self.focused_rect()),
                x,
                y,
            ),
        }
    }

    /// The mouse came to another monitor.
    pub open spec fn mouse_crossed(self, mi: usize) -> Wm {
        let lost = match self.active().focused {
            Some(w) => seq![Effect::Deactivate { id: w }],
            None => seq![],
        };
        Wm { focused_monitor: mi, hovered: None, ..self }.did(lost)
    }

    /// The window under the mouse gets the focus if it is another one.
    pub open spec fn hovered_over(self, x: int, y: int) -> Wm {
        let under = self.window_under(x, y);
        if under == self.hovered {
            self
        } else {
            let s = Wm { hovered: under, ..self };
            match under {
                Some(w) => s.focused_on(w, true),
                None => s,
            }
        }
    }

    /// Whether the focus follows the mouse, and the mouse was not moved just now
    /// to follow the focus.
    pub open spec fn mouse_is_followed(self) -> bool {
        self.focus_follows_mouse && !(self.cooldown is Some && self.now < self.cooldown->0)
    }

    /// The mouse moved, and the focus follows it.
    pub open spec fn mouse_followed(self, x: int, y: int) -> Wm {
        if !self.mouse_is_followed() {
            self
        } else {
            let s = Wm { cooldown: None, ..self };
            match monitor_of_point(s.monitors, x, y) {
                Some(mi) if mi != s.focused_monitor => {
                    let there = s.mouse_crossed(mi as usize);
                    if there.active().tree.windows().len() == 0 && there.active().floating.len()
                        == 0 {
                        there.did(seq![Effect::DeactivateAll])
                    } else {
                        there.hovered_over(x, y)
                    }
                },
                _ => s.hovered_over(x, y),
            }
        }
    }

    /// A drag starts on the topmost floating window under the mouse.
    pub open spec fn drag_begun(self, x: i64, y: i64, mode: DragMode) -> Wm {
        let floating = self.active().floating;
        match last_where(floating, float_at(x as int, y as int)) {
            Some(i) => Wm {
                drag: Some(
                    DragState {
                        window_id: floating[i].id,
                        mode,
                        start_x: x,
                        start_y: y,
                        start_geometry: floating[i].geometry,
                    },
                ),
                ..self
            },
            None => self,
        }
    }

    /// The mouse moved while a window is dragged.
    pub open spec fn drag_updated(self, x: i64, y: i64) -> Wm {
        match self.drag {
            None => self,
            Some(d) => {
                let g = d.start_geometry;
                let dx = x - d.start_x;
                let dy = y - d.start_y;
                let ws = self.active();
                let now = match ws.float_rect(d.window_id) {
                    Some(r) => r,
                    None => g,
                };
                match d.mode {
                    DragMode::Move => {
                        let nx = fit(g.x + dx);
                        let ny = fit(g.y + dy);
                        self.with_ws(
                            self.active_idx(),
                            ws.float_placed(d.window_id, Rect { x: nx, y: ny, ..now }),
                        ).did(seq![Effect::Move { id: d.window_id, x: nx, y: ny }])
                    },
                    DragMode::Resize => {
                        let w = dragged(g.width + dx, MIN_DRAG_WIDTH);
                        let h = dragged(g.height + dy, MIN_DRAG_HEIGHT);
                        self.with_ws(
                            self.active_idx(),
                            ws.float_placed(d.window_id, Rect { width: w, height: h, ..now }),
                        ).did(seq![Effect::Resize { id: d.window_id, width: w, height: h }])
                    },
                }
            },
        }
    }
}

/// A dragged length, which is never less than some minimum.
pub open spec fn dragged(length: int, least: i64) -> i64 {
    if length < least {
        least
    } else {
        fit(length)
    }
}

fn dragged_length(length: i128, least: i64) -> (r: i64)
    ensures
        r == dragged(length as int, least),
{
    if length < least as i128 {
        least
    } else {
        fit_i64(length)
    }
}

fn is_at_screen_edge(rect: &Rect, screen: &Rect, direction: Direction, slack: i128) -> (r: bool)
    requires
        -0x1_0000_0000_0000_0000 <= slack <= 0x1_0000_0000_0000_0000,
    ensures
        r == touches_edge(*rect, *screen, direction, slack as int),
{
    match direction {
        Direction::Right => rect.x as i128 + rect.width as i128 >= screen.x as i128
            + screen.width as i128 - slack,
        Direction::Left => rect.x as i128 <= screen.x as i128 + slack,
        Direction::Down => rect.y as i128 + rect.height as i128 >= screen.y as i128
            + screen.height as i128 - slack,
        Direction::Up => rect.y as i128 <= screen.y as i128 + slack,
    }
}

fn floating_at(floating: &Vec<FloatingWindow>, x: i64, y: i64) -> (r: Option<FloatingWindow>)
    ensures
        r == (match last_where(floating@, float_at(x as int, y as int)) {
            Some(i) => Some(floating@[i]),
            None => None,
        }),
{
    let ghost p = float_at(x as int, y as int);
    let mut i: usize = floating.len();
    while i > 0
        invariant
            p == float_at(x as int, y as int),
            i <= floating@.len(),
            forall|j: int| i <= j < floating@.len() ==> !p(#[trigger] floating@[j]),
        decreases i,
    {
        i = i - 1;
        if floating[i].geometry.contains_point(x, y) {
            proof {
                lemma_last_where(floating@, p, i as int);
            }
            return Some(floating[i]);
        }
    }
    assert forall|j: int| !is_last_where(floating@, p, j) by {}
    None
}

fn tiled_at(tiles: &Vec<(WindowId, Rect)>, x: i64, y: i64) -> (r: Option<WindowId>)
    ensures
        r == (match last_where(tiles@, tile_at(x as int, y as int)) {
            Some(i) => Some(tiles@[i].0),
            None => None,
        }),
{
    let ghost p = tile_at(x as int, y as int);
    let mut i: usize = tiles.len();
    while i > 0
        invariant
            p == tile_at(x as int, y as int),
            i <= tiles@.len(),
            forall|j: int| i <= j < tiles@.len() ==> !p(#[trigger] tiles@[j]),
        decreases i,
    {
        i = i - 1;
        if tiles[i].1.contains_point(x, y) {
            proof {
                lemma_last_where(tiles@, p, i as int);
            }
            return Some(tiles[i].0);
        }
    }
    assert forall|j: int| !is_last_where(tiles@, p, j) by {}
    None
}

fn topmost_at(
    floating: &Vec<FloatingWindow>,
    tiles: &Vec<(WindowId, Rect)>,
    x: i64,
    y: i64,
) -> (r: Option<WindowId>)
    ensures
        r == window_at(floating@, tiles@, x as int, y as int),
{
    match floating_at(floating, x, y) {
        Some(f) => Some(f.id),
        None => tiled_at(tiles, x, y),
    }
}

fn monitor_distance(m: &Monitor, x: i64) -> (r: i128)
    ensures
        r == sideways_distance(*m, x as int),
{
    let d: i128 = 2 * (x as i128) - (2 * (m.frame.x as i128) + m.frame.width as i128);
    if d < 0 {
        (-d) / 2
    } else {
        d / 2
    }
}

/// The monitor of a point: the one on which it lies, or else the nearest one.
pub fn monitor_index_near(monitors: &Vec<Monitor>, x: i64, y: i64) -> (r: Option<usize>)
    ensures
        match r {
            Some(i) => monitor_of_point(monitors@, x as int, y as int) == Some(i as int) && i
                < monitors@.len(),
            None => monitor_of_point(monitors@, x as int, y as int) is None,
        },
{
    if let Some(i) = index_at_point(monitors, x, y) {
        return Some(i);
    }
    if monitors.len() == 0 {
        return None;
    }
    let mut best: usize = 0;
    let mut i: usize = 1;
    while i < monitors.len()
        invariant
            best < i <= monitors@.len(),
            forall|j: int|
                0 <= j < i ==> sideways_distance(monitors@[best as int], x as int)
                    <= #[trigger] sideways_distance(monitors@[j], x as int),
            forall|j: int|
                0 <= j < best ==> sideways_distance(monitors@[best as int], x as int)
                    < #[trigger] sideways_distance(monitors@[j], x as int),
        decreases monitors.len() - i,
    {
        if monitor_distance(&monitors[i], x) < monitor_distance(&monitors[best], x) {
            best = i;
        }
        i = i + 1;
    }
    proof {
        lemma_nearest_monitor(monitors@, x as int, best as int);
    }
    Some(best)
}

impl Workspace {
    /// Gives the first floating entry of a window another rectangle.
    pub fn place_floating(&mut self, id: WindowId, geometry: Rect)
        ensures
            final(self)@ == old(self)@.float_placed(id, geometry),
    {
        let ghost p = is_float_of(id);
        let n: usize = self.floating.len();
        let mut i: usize = 0;
        while i < n
            invariant
                n == self.floating@.len(),
                p == is_float_of(id),
                i <= n,
                forall|j: int| 0 <= j < i ==> !p(#[trigger] self.floating@[j]),
                *self == *old(self),
            decreases n - i,
        {
            if self.floating[i].id == id {
                proof {
                    lemma_first_where(self.floating@, p, i as int);
                }
                self.floating[i] = FloatingWindow { id, geometry };
                return ;
            }
            i = i + 1;
        }
        proof {
            lemma_first_where_none(self.floating@, p);
        }
    }

    /// The rectangle of a floating window.
    pub fn floating_rect(&self, id: WindowId) -> (r: Option<Rect>)
        ensures
            r == self@.float_rect(id),
    {
        let ghost p = is_float_of(id);
        let mut i: usize = 0;
        while i < self.floating.len()
            invariant
                p == is_float_of(id),
                i <= self.floating@.len(),
                forall|j: int| 0 <= j < i ==> !p(#[trigger] self.floating@[j]),
            decreases self.floating.len() - i,
        {
            if self.floating[i].id == id {
                proof {
                    lemma_first_where(self.floating@, p, i as int);
                }
                return Some(self.floating[i].geometry);
            }
            i = i + 1;
        }
        proof {
            lemma_first_where_none(self.floating@, p);
        }
        None
    }
}

impl WmState {
    fn is_at_edge(
        &self,
        tiles: &Vec<(WindowId, Rect)>,
        id: WindowId,
        direction: Direction,
    ) -> (r: bool)
        requires
            self@.ready(),
        ensures
            r == self@.at_edge(tiles@, id, direction),
    {
        match find_rect(tiles, id) {
            Some(rect) => is_at_screen_edge(
                &rect,
                &self.focused_rect(),
                direction,
                self.gap_outer as i128 + EDGE_TOLERANCE as i128,
            ),
            None => false,
        }
    }

    fn monitor_to(&self, direction: Direction) -> (r: Option<usize>)
        requires
            self@.ready(),
        ensures
            r == self@.monitor_towards(direction),
            r is Some ==> r->0 < self@.monitors.len(),
    {
        match direction {
            Direction::Right => next_index_nowrap(&self.monitors, self.focused_monitor),
            Direction::Left => prev_index_nowrap(&self.monitors, self.focused_monitor),
            _ => None,
        }
    }

    fn cross_monitor(&mut self, direction: Direction)
        requires
            old(self)@.ready(),
        ensures
            final(self)@ == old(self)@.crossed(direction),
            final(self)@.ready(),
    {
        let new_mi: usize = match self.monitor_to(direction) {
            Some(mi) => mi,
            None => {
                return ;
            },
        };
        self.focused_monitor = new_mi;
        let screen: Rect = self.focused_rect();
        let tiles = self.workspace_focus_geometries(self.active_ws_idx(), screen);
        let target: Option<WindowId> = match Node::nearest_to_edge(&tiles, direction) {
            Some(w) => Some(w),
            None => self.active_workspace().focused,
        };
        match target {
            Some(wid) => {
                self.focus_window(wid);
                if self.mouse_follows_focus {
                    if let Some(rect) = find_rect(&tiles, wid) {
                        self.emit(warp_effect(&rect));
                    }
                    self.ffm_cooldown_until = Some(time_after(self.now, WARP_COOLDOWN));
                    self.ffm_last_window = Some(wid);
                }
            },
            None => {
                self.emit(Effect::DeactivateAll);
                self.ffm_last_window = None;
                if self.mouse_follows_focus {
                    self.warp_to_center(&screen);
                }
            },
        }
    }

    fn choose_focus(
        &self,
        candidates: &Vec<WindowId>,
        from: WindowId,
        direction: Direction,
    ) -> (r: WindowId)
        requires
            candidates@.len() > 0,
        ensures
            r == (match remembered_target(self@.memory, from, direction) {
                Some(w) if candidates@.contains(w) => w,
                _ => candidates@[0],
            }),
    {
        if let Some(w) = self.remembered_focus(from, direction) {
            if position_u32(candidates, w).is_some() {
                return w;
            }
        }
        candidates[0]
    }

    /// Moves the focus in a direction.
    pub fn focus_direction(&mut self, direction: Direction)
        requires
            old(self)@.ready(),
        ensures
            final(self)@ == old(self)@.focus_moved(direction),
            final(self)@.ready(),
    {
        let from: WindowId = match self.active_workspace().focused {
            Some(w) => w,
            None => {
                self.cross_monitor(direction);
                return ;
            },
        };
        let forward: bool = direction == Direction::Right;
        if direction == Direction::Left || direction == Direction::Right {
            let ghost before = self@;
            let next = self.active_workspace_mut().tree.cycle_stack(from, forward);
            if let Some(wid) = next {
                self.focus_window(wid);
                return ;
            }
            proof {
                law_cycle_stops_at_end(before.active().tree, from, forward);
                assert(self@.workspaces =~= before.workspaces);
                assert(self@ =~= before);
            }
        }
        let screen: Rect = self.focused_rect();
        let tiles = self.workspace_focus_geometries(self.active_ws_idx(), screen);
        if !self.is_at_edge(&tiles, from, direction) {
            let candidates = Node::adjacent_candidates(&tiles, from, direction);
            if candidates.len() > 0 {
                let target: WindowId = self.choose_focus(&candidates, from, direction);
                self.focus_window(target);
                self.remember_focus_transition(from, direction, target);
                if self.mouse_follows_focus {
                    if let Some(rect) = find_rect(&tiles, target) {
                        self.warp_to_center(&rect);
                        self.ffm_last_window = Some(target);
                    }
                }
                return ;
            }
        }
        self.cross_monitor(direction);
    }

    /// Moves the focused window in a direction.
    pub fn swap_direction(&mut self, direction: Direction)
        requires
            old(self)@.ready(),
        ensures
            final(self)@ == old(self)@.swap_moved(direction),
            final(self)@.ready(),
    {
        let focused: WindowId = match self.active_workspace().focused {
            Some(w) => w,
            None => {
                return ;
            },
        };
        let forward: bool = direction == Direction::Right;
        if direction == Direction::Left || direction == Direction::Right {
            let ghost before = self@;
            let next = self.active_workspace_mut().tree.reorder_stack(focused, forward);
            if let Some(wid) = next {
                self.apply_layout();
                self.focus_window(wid);
                return ;
            }
            proof {
                law_reorder_stops_at_end(before.active().tree, focused, forward);
                assert(self@.workspaces =~= before.workspaces);
                assert(self@ =~= before);
            }
        }
        let screen: Rect = self.focused_rect();
        let tiles = self.workspace_focus_geometries(self.active_ws_idx(), screen);
        if !self.is_at_edge(&tiles, focused, direction) {
            if let Some(target) = Node::find_adjacent(&tiles, focused, direction) {
                if self.active_workspace_mut().tree.swap(focused, target) {
                    self.apply_layout();
                    self.fix_oversized_windows();
                }
                return ;
            }
        }
        if let Some(mi) = self.monitor_to(direction) {
            self.move_window_to_monitor(mi);
        }
    }

    /// Moves the split around the focused window.
    pub fn resize_direction(&mut self, direction: Direction)
        requires
            old(self)@.ready(),
        ensures
            final(self)@ == old(self)@.resize_moved(direction),
            final(self)@.ready(),
    {
        let focused: WindowId = match self.active_workspace().focused {
            Some(w) => w,
            None => {
                return ;
            },
        };
        let ghost before = self@;
        if self.active_workspace_mut().tree.resize(focused, direction, RESIZE_STEP) {
            self.apply_layout();
        } else {
            proof {
                law_resize_needs_split(before.active().tree, focused, direction, RESIZE_STEP);
                assert(self@.workspaces =~= before.workspaces);
                assert(self@ =~= before);
            }
        }
    }

    /// Makes all splits of the active workspace even.
    pub fn equalize(&mut self)
        requires
            old(self)@.ready(),
        ensures
            final(self)@ == old(self)@.made_even(),
            final(self)@.ready(),
    {
        self.active_workspace_mut().tree.equalize();
        self.apply_layout();
    }

    /// Changes the focused window between tiled and floating.
    pub fn toggle_float(&mut self)
        requires
            old(self)@.ready(),
        ensures
            final(self)@ == old(self)@.float_switched(),
            final(self)@.ready(),
    {
        let focused: WindowId = match self.active_workspace().focused {
            Some(w) => w,
            None => {
                return ;
            },
        };
        let screen: Rect = self.focused_rect();
        if !self.active_workspace().holds(focused) {
            return ;
        }
        let _ = self.active_workspace_mut().toggle_float(focused, screen);
        self.apply_layout();
        let ghost s = self@;
        match self.active_workspace().floating_rect(focused) {
            Some(r) => {
                self.emit(Effect::Move { id: focused, x: r.x, y: r.y });
                self.emit(Effect::Resize { id: focused, width: r.width, height: r.height });
                self.emit(Effect::Level { id: focused, floating: true });
                assert(self@ =~= s.did(
                    seq![
                        Effect::Move { id: focused, x: r.x, y: r.y },
                        Effect::Resize { id: focused, width: r.width, height: r.height },
                        Effect::Level { id: focused, floating: true },
                    ],
                ));
                self.enforce_floating_levels(focused);
            },
            None => {
                self.emit(Effect::Level { id: focused, floating: false });
            },
        }
    }

    /// Raises the floating windows beside a window.
    pub fn enforce_floating_levels(&mut self, focused_id: WindowId)
        requires
            old(self)@.sound(),
            old(self)@.home_of(focused_id) is None ==> old(self)@.ready(),
        ensures
            final(self)@ == old(self)@.did(
                lifts_of(
                    old(self)@.workspaces[old(self)@.focus_home(focused_id) as int].floating,
                ),
            ),
            final(self)@.sound(),
            old(self)@.ready() ==> final(self)@.ready(),
    {
        let ws_idx: usize = match self.workspaces.find_window(focused_id) {
            Some(idx) => idx,
            None => self.active_ws_idx(),
        };
        self.restack_floating_windows(ws_idx);
    }

    fn restack_focused(&mut self, promote: bool)
        requires
            old(self)@.ready(),
        ensures
            final(self)@ == old(self)@.restacked(promote),
            final(self)@.ready(),
    {
        let focused: WindowId = match self.effective_focused() {
            Some(w) => w,
            None => {
                return ;
            },
        };
        let ws_idx: usize = match self.workspaces.find_window(focused) {
            Some(idx) => idx,
            None => {
                return ;
            },
        };
        let ghost before = self@;
        let done: bool = if promote {
            self.workspaces.get_mut(ws_idx).tree.promote_stack_window(focused)
        } else {
            self.workspaces.get_mut(ws_idx).tree.unstack(focused)
        };
        if done {
            self.apply_layout();
            self.focus_window(focused);
        } else {
            proof {
                law_outside_stack(before.workspaces[ws_idx as int].tree, focused);
                assert(self@.workspaces =~= before.workspaces);
                assert(self@ =~= before);
            }
        }
    }

    /// Gives the stack of the focused window its subtree back.
    pub fn unstack_focused(&mut self)
        requires
            old(self)@.ready(),
        ensures
            final(self)@ == old(self)@.restacked(false),
            final(self)@.ready(),
    {
        self.restack_focused(false);
    }

    /// Moves the focused window to the top of its stack.
    pub fn promote_stack_focused(&mut self)
        requires
            old(self)@.ready(),
        ensures
            final(self)@ == old(self)@.restacked(true),
            final(self)@.ready(),
    {
        self.restack_focused(true);
    }

    /// Presses the close button of the focused window.
    pub fn close_focused(&mut self)
        requires
            old(self)@.ready(),
        ensures
            final(self)@ == old(self)@.close_asked(),
            final(self)@.ready(),
    {
        if let Some(w) = self.effective_focused() {
            self.emit(Effect::Close { id: w });
        }
    }

    /// Gives the focus to the window under a click.
    pub fn click_to_focus(&mut self, x: i64, y: i64)
        requires
            old(self)@.ready(),
        ensures
            final(self)@ == old(self)@.clicked(x as int, y as int),
            final(self)@.ready(),
    {
        let tiles = self.workspace_render_geometries(self.active_ws_idx(), self.focused_rect());
        let hit = topmost_at(&self.active_workspace().floating, &tiles, x, y);
        if let Some(id) = hit {
            self.ffm_last_window = Some(id);
            let same: bool = match self.active_workspace().focused {
                Some(f) => f == id,
                None => false,
            };
            if !same {
                self.focus_window(id);
            }
        }
    }

    fn find_under(&self, x: i64, y: i64) -> (r: Option<WindowId>)
        requires
            self@.ready(),
        ensures
            r == self@.window_under(x as int, y as int),
    {
        let mi: usize = self.focused_monitor;
        match self.special_on(mi) {
            Some(special_idx) => {
                let ws = self.workspaces.get(special_idx);
                let config = match &ws.id {
                    WorkspaceId::Special(name) => self.special_config(name.as_str()),
                    _ => {
                        proof {
                            reveal_strlit("");
                            assert(""@ =~= Seq::<char>::empty());
                        }
                        self.special_config("")
                    },
                };
                let overlay: Rect = overlay_geometry(&self.monitor_rect(mi), &config);
                let tiles = self.workspace_focus_geometries(special_idx, overlay);
                topmost_at(&ws.floating, &tiles, x, y)
            },
            None => {
                let tiles = self.workspace_focus_geometries(
                    self.active_ws_idx(),
                    self.focused_rect(),
                );
                topmost_at(&self.active_workspace().floating, &tiles, x, y)
            },
        }
    }

    fn hover(&mut self, x: i64, y: i64)
        requires
            old(self)@.ready(),
        ensures
            final(self)@ == old(self)@.hovered_over(x as int, y as int),
            final(self)@.ready(),
    {
        let under = self.find_under(x, y);
        let same: bool = match (under, self.ffm_last_window) {
            (Some(a), Some(b)) => a == b,
            (None, None) => true,
            _ => false,
        };
        if !same {
            self.ffm_last_window = under;
            if let Some(id) = under {
                self.focus_window(id);
            }
        }
    }

    /// Lets the focus follow the mouse.
    pub fn mouse_moved(&mut self, x: i64, y: i64)
        requires
            old(self)@.sound(),
            old(self)@.mouse_is_followed() ==> old(self)@.ready(),
        ensures
            final(self)@ == old(self)@.mouse_followed(x as int, y as int),
            final(self)@.sound(),
            old(self)@.ready() ==> final(self)@.ready(),
    {
        if !self.focus_follows_mouse {
            return ;
        }
        if let Some(until) = self.ffm_cooldown_until {
            if self.now < until {
                return ;
            }
            self.ffm_cooldown_until = None;
        }
        let ghost s = self@;
        assert(s == (Wm { cooldown: None, ..old(self)@ }));
        if let Some(mi) = monitor_index_near(&self.monitors, x, y) {
            if mi != self.focused_monitor {
                let lost = self.active_workspace().focused;
                self.focused_monitor = mi;
                self.ffm_last_window = None;
                if let Some(w) = lost {
                    self.emit(Effect::Deactivate { id: w });
                }
                assert(self@ =~= s.mouse_crossed(mi));
                if self.active_workspace().tree.window_count() == 0
                    && self.active_workspace().floating.is_empty() {
                    self.emit(Effect::DeactivateAll);
                    return ;
                }
            }
        }
        self.hover(x, y);
    }

    fn begin_drag(&mut self, x: i64, y: i64, mode: DragMode)
        requires
            old(self)@.ready(),
        ensures
            final(self)@ == old(self)@.drag_begun(x, y, mode),
            final(self)@.ready(),
    {
        if let Some(f) = floating_at(&self.active_workspace().floating, x, y) {
            self.drag = Some(
                DragState {
                    window_id: f.id,
                    mode,
                    start_x: x,
                    start_y: y,
                    start_geometry: f.geometry,
                },
            );
        }
    }

    /// Starts to move the floating window under the mouse.
    pub fn begin_move_drag(&mut self, x: i64, y: i64)
        requires
            old(self)@.ready(),
        ensures
            final(self)@ == old(self)@.drag_begun(x, y, DragMode::Move),
            final(self)@.ready(),
    {
        self.begin_drag(x, y, DragMode::Move);
    }

    /// Starts to resize the floating window under the mouse.
    pub fn begin_resize_drag(&mut self, x: i64, y: i64)
        requires
            old(self)@.ready(),
        ensures
            final(self)@ == old(self)@.drag_begun(x, y, DragMode::Resize),
            final(self)@.ready(),
    {
        self.begin_drag(x, y, DragMode::Resize);
    }

    /// Moves or resizes the dragged window.
    pub fn update_drag(&mut self, x: i64, y: i64)
        requires
            old(self)@.sound(),
            old(self)@.drag is Some ==> old(self)@.ready(),
        ensures
            final(self)@ == old(self)@.drag_updated(x, y),
            final(self)@.sound(),
            old(self)@.ready() ==> final(self)@.ready(),
    {
        let d: DragState = match self.drag {
            Some(d) => d,
            None => {
                return ;
            },
        };
        let dx: i128 = x as i128 - d.start_x as i128;
        let dy: i128 = y as i128 - d.start_y as i128;
        let g: Rect = d.start_geometry;
        let now: Rect = match self.active_workspace().floating_rect(d.window_id) {
            Some(r) => r,
            None => g,
        };
        match d.mode {
            DragMode::Move => {
                let nx: i64 = fit_i64(g.x as i128 + dx);
                let ny: i64 = fit_i64(g.y as i128 + dy);
                let moved: Rect = Rect::new(nx, ny, now.width, now.height);
                self.active_workspace_mut().place_floating(d.window_id, moved);
                self.emit(Effect::Move { id: d.window_id, x: nx, y: ny });
            },
            DragMode::Resize => {
                let w: i64 = dragged_length(g.width as i128 + dx, MIN_DRAG_WIDTH);
                let h: i64 = dragged_length(g.height as i128 + dy, MIN_DRAG_HEIGHT);
                let sized: Rect = Rect::new(now.x, now.y, w, h);
                self.active_workspace_mut().place_floating(d.window_id, sized);
                self.emit(Effect::Resize { id: d.window_id, width: w, height: h });
            },
        }
    }

    /// Ends a drag.
    pub fn end_drag(&mut self)
        ensures
            final(self)@ == (Wm { drag: None, ..old(self)@ }),
    {
        self.drag = None;
    }

    pub fn is_dragging(&self) -> (r: bool)
        ensures
            r == (self@.drag is Some),
    {
        self.drag.is_some()
    }
}

} // verus!
