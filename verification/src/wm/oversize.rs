//! Making room for windows that do not fit into their tiles.
//!
//! A window may refuse a size. Its actual size is measured from outside; what
//! follows from the sizes is decided here, one measurement at a time.
use vstd::prelude::*;
use crate::seqs::{
    first_where, lemma_first_where, lemma_first_where_found, lemma_first_where_none, position_u32,
};
use crate::wm::adjacency::{find_rect, rect_of};
use crate::wm::effects::{lifts_of, Effect};
use crate::wm::geometry::{Rect, POINT};
use crate::wm::state::{Fix, FixJob, Target, TargetJob, Task, Todo, Wm, WmState};
use crate::wm::tree::{lemma_stacked_impossible, Node, Tree};
use crate::wm::tree_laws::law_remove_keeps_wf;
use crate::wm::window::WindowId;
use crate::wm::workspace::{float_ids, Ws};

verus! {

/// The size that a window really has.
#[derive(Clone, Copy, Debug, PartialEq, Eq, Structural)]
pub struct WindowSize {
    pub id: WindowId,
    pub width: i64,
    pub height: i64,
}

/// Tells the size of a window.
pub open spec fn is_size_of(id: WindowId) -> spec_fn(WindowSize) -> bool {
    |s: WindowSize| s.id == id
}

/// The measured size of a window.
pub open spec fn size_of(sizes: Seq<WindowSize>, id: WindowId) -> Option<WindowSize> {
    match first_where(sizes, is_size_of(id)) {
        Some(i) => Some(sizes[i]),
        None => None,
    }
}

/// Whether a window is larger than a rectangle by more than a point.
pub open spec fn exceeds(size: WindowSize, rect: Rect) -> bool {
    size.width > rect.width + POINT || size.height > rect.height + POINT
}

/// Tells tiles whose windows are too large, but for some windows.
pub open spec fn is_oversized(
    sizes: Seq<WindowSize>,
    spared: Seq<WindowId>,
) -> spec_fn((WindowId, Rect)) -> bool {
    |t: (WindowId, Rect)|
        {
            &&& !spared.contains(t.0)
            &&& size_of(sizes, t.0) is Some
            &&& exceeds(size_of(sizes, t.0)->0, t.1)
        }
}

/// The first tile whose window is too large.
pub open spec fn oversized(
    tiles: Seq<(WindowId, Rect)>,
    sizes: Seq<WindowSize>,
    spared: Seq<WindowId>,
) -> Option<WindowId> {
    match first_where(tiles, is_oversized(sizes, spared)) {
        Some(i) => Some(tiles[i].0),
        None => None,
    }
}

/// Whether a tile has room for a window and can be given to it.
pub open spec fn can_host(
    tile: (WindowId, Rect),
    size: WindowSize,
    settled: Seq<WindowId>,
) -> bool {
    &&& tile.0 != size.id
    &&& !settled.contains(tile.0)
    &&& tile.1.width >= size.width - POINT
    &&& tile.1.height >= size.height - POINT
}

pub open spec fn area_of(tile: (WindowId, Rect)) -> int {
    tile.1.width * tile.1.height
}

/// Tile `i` is the last of the largest that have room for a window.
pub open spec fn is_best_host(
    tiles: Seq<(WindowId, Rect)>,
    size: WindowSize,
    settled: Seq<WindowId>,
    i: int,
) -> bool {
    &&& 0 <= i < tiles.len()
    &&& can_host(tiles[i], size, settled)
    &&& forall|j: int|
        0 <= j < tiles.len() && #[trigger] can_host(tiles[j], size, settled) ==> area_of(tiles[j])
            <= area_of(tiles[i]) && (j > i ==> area_of(tiles[j]) < area_of(tiles[i]))
}

/// The window whose tile an oversized window gets.
pub open spec fn best_host(
    tiles: Seq<(WindowId, Rect)>,
    size: WindowSize,
    settled: Seq<WindowId>,
) -> Option<WindowId> {
    if exists|i: int| is_best_host(tiles, size, settled, i) {
        Some(tiles[choose|i: int| is_best_host(tiles, size, settled, i)].0)
    } else {
        None
    }
}

proof fn lemma_best_host(
    tiles: Seq<(WindowId, Rect)>,
    size: WindowSize,
    settled: Seq<WindowId>,
    i: int,
)
    requires
        is_best_host(tiles, size, settled, i),
    ensures
        best_host(tiles, size, settled) == Some(tiles[i].0),
{
    let k = choose|k: int| is_best_host(tiles, size, settled, k);
    assert(is_best_host(tiles, size, settled, k));
    assert(can_host(tiles[k], size, settled) && can_host(tiles[i], size, settled));
}

/// What one round of trading places comes to.
pub struct Round {
    pub tree: Tree,
    /// Windows that got a larger tile.
    pub settled: Seq<WindowId>,
    /// Windows for which no tile has room.
    pub stuck: Seq<WindowId>,
    pub traded: bool,
}

/// One round of trading places: each oversized window in turn gets the largest
/// tile that has room for it. A round takes at most `steps` steps.
pub open spec fn traded(
    round: Round,
    rect: Rect,
    gaps: (i64, i64),
    sizes: Seq<WindowSize>,
    steps: nat,
) -> Round
    decreases steps,
{
    let tiles = round.tree.focus_geometries(rect, gaps.0, gaps.1, true);
    match oversized(tiles, sizes, round.settled + round.stuck) {
        Some(w) if steps > 0 => traded(
            match best_host(tiles, size_of(sizes, w)->0, round.settled) {
                Some(other) => Round {
                    tree: round.tree.swapped(w, other),
                    settled: round.settled.push(w),
                    traded: true,
                    ..round
                },
                None => Round { stuck: round.stuck.push(w), ..round },
            },
            rect,
            gaps,
            sizes,
            (steps - 1) as nat,
        ),
        _ => round,
    }
}

impl Wm {
    /// The rectangle in which a workspace is laid out.
    pub open spec fn screen_of(self, ws_idx: usize) -> Rect {
        match self.showing(ws_idx) {
            Some(mi) => self.rect_on(mi),
            None => self.focused_rect(),
        }
    }

    /// One round of trading places on a workspace, as long as a window of it
    /// can be tried.
    pub open spec fn round_of(
        self,
        ws_idx: usize,
        sizes: Seq<WindowSize>,
        settled: Seq<WindowId>,
    ) -> Round {
        let tree = self.workspaces[ws_idx as int].tree;
        traded(
            Round { tree, settled, stuck: seq![], traded: false },
            self.screen_of(ws_idx),
            self.gaps_of(ws_idx),
            sizes,
            tree.windows().len(),
        )
    }

    pub open spec fn with_tree(self, ws_idx: usize, tree: Tree) -> Wm {
        self.with_ws(ws_idx, Ws { tree, ..self.workspaces[ws_idx as int] })
    }

    /// The smallest subtree around a window becomes a stack that shows it.
    pub open spec fn stacked_for(self, ws_idx: usize, w: WindowId) -> Wm {
        self.with_tree(
            ws_idx,
            self.workspaces[ws_idx as int].tree.stacked(w).activated(w),
        ).laid_out().did(seq![Effect::Pause { ms: 50 }])
    }

    /// Where a window floats that no tile has room for: where its tile is, with
    /// the size that it has.
    pub open spec fn float_spot(self, ws_idx: usize, size: WindowSize) -> Rect {
        let tile = rect_of(self.focus_tiles(ws_idx, self.screen_of(ws_idx)), size.id)->0;
        Rect { x: tile.x, y: tile.y, width: size.width, height: size.height }
    }

    /// A window that no tile has room for floats.
    pub open spec fn floated_out(self, ws_idx: usize, size: WindowSize) -> Wm {
        let spot = self.float_spot(ws_idx, size);
        let ws = self.workspaces[ws_idx as int].floated(size.id, spot);
        self.with_ws(ws_idx, ws).laid_out().did(
            seq![
                Effect::Move { id: size.id, x: spot.x, y: spot.y },
                Effect::Resize { id: size.id, width: spot.width, height: spot.height },
                Effect::Level { id: size.id, floating: true },
            ],
        ).did(lifts_of(ws.floating)).did(seq![Effect::Pause { ms: 50 }])
    }

    /// The window that floats in a step of making room: once no places are
    /// traded any more, the first one that is too large, unless it has the
    /// workspace for itself.
    pub open spec fn unfit(self, job: Fix, sizes: Seq<WindowSize>) -> Option<WindowId> {
        let ws_idx = job.todo[0];
        let tiles = self.focus_tiles(ws_idx, self.screen_of(ws_idx));
        if job.todo.len() > 0 && job.floating && tiles.len() > 1 {
            oversized(tiles, sizes, seq![])
        } else {
            None
        }
    }

    /// Whether a step of making room takes a look at the focused monitor: no
    /// monitor shows the workspace any more.
    pub open spec fn fix_reads(self, job: Fix) -> bool {
        job.todo.len() > 0 && self.showing(job.todo[0]) is None
    }

    /// One step of making room on the workspaces that monitors show.
    pub open spec fn fix_stepped(self, job: Fix, sizes: Seq<WindowSize>) -> Wm {
        let ws_idx = job.todo[0];
        let round = self.round_of(ws_idx, sizes, job.settled);
        let next = self.later(
            Todo::FixVisible(
                Fix { todo: job.todo.skip(1), settled: seq![], floating: false },
            ),
        );
        if job.todo.len() == 0 {
            self.unshown_hidden()
        } else if !job.floating && round.traded {
            self.with_tree(ws_idx, round.tree).laid_out().did(
                seq![Effect::Pause { ms: 100 }],
            ).later(Todo::FixVisible(Fix { settled: round.settled, ..job }))
        } else if !job.floating {
            self.later(Todo::FixVisible(Fix { floating: true, ..job }))
        } else {
            match self.unfit(job, sizes) {
                Some(w) => self.floated_out(ws_idx, size_of(sizes, w)->0).later(
                    Todo::FixVisible(job),
                ),
                None => next,
            }
        }
    }

    /// Whether a window fits into its tile; one that was not measured does.
    pub open spec fn fits(self, job: Target, sizes: Seq<WindowSize>) -> bool {
        let tiles = self.focus_tiles(job.ws_idx, self.screen_of(job.ws_idx));
        match rect_of(tiles, job.moved) {
            Some(rect) => match size_of(sizes, job.moved) {
                Some(size) => !exceeds(size, rect),
                None => !exceeds(WindowSize { id: job.moved, width: 0, height: 0 }, rect),
            },
            None => true,
        }
    }

    /// One step of making room for a window that was moved to a workspace.
    pub open spec fn target_stepped(self, job: Target, sizes: Seq<WindowSize>) -> Wm {
        let ws_idx = job.ws_idx;
        let tree = self.workspaces[ws_idx as int].tree;
        let tiles = self.focus_tiles(ws_idx, self.screen_of(ws_idx));
        if self.showing(ws_idx) is None || (!job.checked && self.fits(job, sizes)) {
            self
        } else {
            match oversized(tiles, sizes, job.settled) {
                None => self,
                Some(w) => match best_host(tiles, size_of(sizes, w)->0, job.settled) {
                    Some(other) => self.with_tree(ws_idx, tree.swapped(w, other)).laid_out().later(
                        Todo::FixTarget(
                            Target { checked: true, settled: job.settled.push(w), ..job },
                        ),
                    ),
                    None => if tree.can_stack(w) {
                        self.stacked_for(ws_idx, w).later(
                            Todo::FixTarget(Target { checked: true, ..job }),
                        )
                    } else {
                        self
                    },
                },
            }
        }
    }
}

fn find_size(sizes: &Vec<WindowSize>, id: WindowId) -> (r: Option<WindowSize>)
    ensures
        r == size_of(sizes@, id),
        r is Some ==> r->0.id == id,
{
    let ghost p = is_size_of(id);
    let mut i: usize = 0;
    while i < sizes.len()
        invariant
            p == is_size_of(id),
            i <= sizes@.len(),
            forall|j: int| 0 <= j < i ==> !p(#[trigger] sizes@[j]),
        decreases sizes.len() - i,
    {
        if sizes[i].id == id {
            proof {
                lemma_first_where(sizes@, p, i as int);
            }
            return Some(sizes[i]);
        }
        i = i + 1;
    }
    proof {
        lemma_first_where_none(sizes@, p);
    }
    None
}

fn is_larger(size: &WindowSize, rect: &Rect) -> (r: bool)
    ensures
        r == exceeds(*size, *rect),
{
    size.width as i128 > rect.width as i128 + POINT as i128 || size.height as i128
        > rect.height as i128 + POINT as i128
}

/// The first tile whose window is too large, with the size of the window.
fn find_oversized(
    tiles: &Vec<(WindowId, Rect)>,
    sizes: &Vec<WindowSize>,
    spared: &Vec<WindowId>,
    more: &Vec<WindowId>,
) -> (r: Option<WindowSize>)
    ensures
        match r {
            Some(size) => oversized(tiles@, sizes@, spared@ + more@) == Some(size.id) && size_of(
                sizes@,
                size.id,
            ) == Some(size),
            None => oversized(tiles@, sizes@, spared@ + more@) is None,
        },
{
    let ghost both = spared@ + more@;
    let ghost p = is_oversized(sizes@, both);
    let mut i: usize = 0;
    while i < tiles.len()
        invariant
            both == spared@ + more@,
            p == is_oversized(sizes@, both),
            i <= tiles@.len(),
            forall|j: int| 0 <= j < i ==> !p(#[trigger] tiles@[j]),
        decreases tiles.len() - i,
    {
        let (wid, rect) = tiles[i];
        let free: bool = position_u32(spared, wid).is_none() && position_u32(more, wid).is_none();
        proof {
            crate::wm::tree::lemma_contains_concat(spared@, more@, wid);
        }
        if free {
            if let Some(size) = find_size(sizes, wid) {
                if is_larger(&size, &rect) {
                    proof {
                        lemma_first_where(tiles@, p, i as int);
                    }
                    return Some(size);
                }
            }
        }
        assert(!p(tiles@[i as int]));
        i = i + 1;
    }
    proof {
        lemma_first_where_none(tiles@, p);
    }
    None
}

fn tile_area(rect: &Rect) -> (r: i128)
    ensures
        r == rect.width * rect.height,
{
    assert(-0x4000_0000_0000_0000_0000_0000_0000_0000 <= rect.width * rect.height
        <= 0x4000_0000_0000_0000_0000_0000_0000_0000) by (nonlinear_arith);
    rect.width as i128 * rect.height as i128
}

/// The window whose tile an oversized window gets.
fn find_host(tiles: &Vec<(WindowId, Rect)>, size: &WindowSize, settled: &Vec<WindowId>) -> (r:
    Option<WindowId>)
    ensures
        r == best_host(tiles@, *size, settled@),
{
    let mut best: Option<usize> = None;
    let mut i: usize = 0;
    while i < tiles.len()
        invariant
            i <= tiles@.len(),
            match best {
                None => forall|j: int|
                    0 <= j < i ==> !#[trigger] can_host(tiles@[j], *size, settled@),
                Some(b) => {
                    &&& b < i
                    &&& can_host(tiles@[b as int], *size, settled@)
                    &&& forall|j: int|
                        0 <= j < i && #[trigger] can_host(tiles@[j], *size, settled@)
                            ==> area_of(tiles@[j]) <= area_of(tiles@[b as int]) && (j > b
                            ==> area_of(tiles@[j]) < area_of(tiles@[b as int]))
                },
            },
        decreases tiles.len() - i,
    {
        let (wid, rect) = tiles[i];
        let hosts: bool = wid != size.id && position_u32(settled, wid).is_none()
            && rect.width as i128 >= size.width as i128 - POINT as i128 && rect.height as i128
            >= size.height as i128 - POINT as i128;
        assert(hosts == can_host(tiles@[i as int], *size, settled@));
        if hosts {
            match best {
                None => {
                    best = Some(i);
                },
                Some(b) => {
                    if tile_area(&tiles[b].1) <= tile_area(&rect) {
                        best = Some(i);
                    }
                },
            }
        }
        i = i + 1;
    }
    match best {
        Some(b) => {
            proof {
                lemma_best_host(tiles@, *size, settled@, b as int);
            }
            Some(tiles[b].0)
        },
        None => {
            assert forall|k: int| !is_best_host(tiles@, *size, settled@, k) by {
                if is_best_host(tiles@, *size, settled@, k) {
                    assert(can_host(tiles@[k], *size, settled@));
                }
            }
            None
        },
    }
}

/// One round of trading places in a tree; says whether windows traded places.
pub fn trade_places(
    tree: &mut Node,
    rect: Rect,
    gaps: (i64, i64),
    sizes: &Vec<WindowSize>,
    settled: &mut Vec<WindowId>,
) -> (r: bool)
    ensures
        ({
            let round = traded(
                Round {
                    tree: old(tree)@,
                    settled: old(settled)@,
                    stuck: seq![],
                    traded: false,
                },
                rect,
                gaps,
                sizes@,
                old(tree)@.windows().len(),
            );
            &&& final(tree)@ == round.tree
            &&& final(settled)@ == round.settled
            &&& r == round.traded
        }),
{
    let mut stuck: Vec<WindowId> = Vec::new();
    let mut done: bool = false;
    let mut steps: usize = tree.window_count();
    let ghost goal = traded(
        Round { tree: tree@, settled: settled@, stuck: seq![], traded: false },
        rect,
        gaps,
        sizes@,
        tree@.windows().len(),
    );
    assert(stuck@ =~= seq![]);
    loop
        invariant
            goal == traded(
                Round { tree: tree@, settled: settled@, stuck: stuck@, traded: done },
                rect,
                gaps,
                sizes@,
                steps as nat,
            ),
        ensures
            goal == (Round { tree: tree@, settled: settled@, stuck: stuck@, traded: done }),
        decreases steps,
    {
        let tiles = tree.calculate_focus_geometries_with_gaps(rect, gaps.0, gaps.1, true);
        match find_oversized(&tiles, sizes, settled, &stuck) {
            None => {
                break;
            },
            Some(size) => {
                if steps == 0 {
                    break;
                }
                match find_host(&tiles, &size, settled) {
                    Some(other) => {
                        let _ = tree.swap(size.id, other);
                        settled.push(size.id);
                        done = true;
                    },
                    None => {
                        stuck.push(size.id);
                    },
                }
                steps = steps - 1;
            },
        }
    }
    done
}

impl WmState {
    fn screen_of(&self, ws_idx: usize) -> (r: Rect)
        requires
            self@.sound(),
            self@.showing(ws_idx) is None ==> self@.ready(),
        ensures
            r == self@.screen_of(ws_idx),
    {
        match self.monitor_showing_workspace(ws_idx) {
            Some(mi) => self.monitor_rect(mi),
            None => self.focused_rect(),
        }
    }

    fn stack_for(&mut self, ws_idx: usize, id: WindowId) -> (r: bool)
        requires
            old(self)@.sound(),
            ws_idx < old(self)@.workspaces.len(),
        ensures
            r == old(self)@.workspaces[ws_idx as int].tree.can_stack(id),
            r ==> final(self)@ == old(self)@.stacked_for(ws_idx, id),
            !r ==> final(self)@ == old(self)@,
            final(self)@.sound(),
            old(self)@.ready() ==> final(self)@.ready(),
            final(self)@.workspaces.len() == old(self)@.workspaces.len(),
    {
        let ghost before = self@;
        let tree = &mut self.workspaces.get_mut(ws_idx).tree;
        let done: bool = tree.make_stack_for_window(id);
        if done {
            let _ = tree.set_stack_active(id);
            self.apply_layout();
            self.emit(Effect::Pause { ms: 50 });
        } else {
            proof {
                lemma_stacked_impossible(before.workspaces[ws_idx as int].tree, id);
                assert(self@.workspaces =~= before.workspaces);
                assert(self@ =~= before);
            }
        }
        done
    }

    fn float_out(&mut self, ws_idx: usize, tiles: &Vec<(WindowId, Rect)>, size: WindowSize)
        requires
            old(self)@.sound(),
            ws_idx < old(self)@.workspaces.len(),
            tiles@ == old(self)@.focus_tiles(ws_idx, old(self)@.screen_of(ws_idx)),
            rect_of(tiles@, size.id) is Some,
        ensures
            final(self)@ == old(self)@.floated_out(ws_idx, size),
            final(self)@.sound(),
            old(self)@.ready() ==> final(self)@.ready(),
            final(self)@.workspaces.len() == old(self)@.workspaces.len(),
    {
        let ghost before = self@;
        let tile: Rect = match find_rect(tiles, size.id) {
            Some(r) => r,
            None => Rect::new(0, 0, 0, 0),
        };
        let spot = Rect { x: tile.x, y: tile.y, width: size.width, height: size.height };
        self.workspaces.get_mut(ws_idx).float_window(size.id, spot);
        self.apply_layout();
        let ghost s = self@;
        self.emit(Effect::Move { id: size.id, x: spot.x, y: spot.y });
        self.emit(Effect::Resize { id: size.id, width: spot.width, height: spot.height });
        self.emit(Effect::Level { id: size.id, floating: true });
        assert(self@ =~= s.did(
            seq![
                Effect::Move { id: size.id, x: spot.x, y: spot.y },
                Effect::Resize { id: size.id, width: spot.width, height: spot.height },
                Effect::Level { id: size.id, floating: true },
            ],
        ));
        self.restack_floating_windows(ws_idx);
        self.emit(Effect::Pause { ms: 50 });
        assert(self@ =~= before.floated_out(ws_idx, size));
    }

    fn next_workspace(&mut self, job: FixJob)
        requires
            old(self)@.sound(),
            job@.todo.len() > 0,
            Todo::FixVisible(job@).is_within(old(self)@.workspaces.len() as int),
        ensures
            final(self)@ == old(self)@.later(
                Todo::FixVisible(
                    Fix { todo: job@.todo.skip(1), settled: seq![], floating: false },
                ),
            ),
            final(self)@.sound(),
            old(self)@.ready() ==> final(self)@.ready(),
    {
        let mut todo = job.todo;
        let _ = todo.remove(0);
        let next = FixJob { todo, settled: Vec::new(), floating: false };
        assert(next@.todo =~= job@.todo.skip(1));
        assert(next@.settled =~= seq![]);
        self.add_task(Task::FixVisible(next));
    }

    /// One step of making room on the workspaces that monitors show.
    pub fn fix_step(&mut self, job: FixJob, sizes: &Vec<WindowSize>)
        requires
            old(self)@.sound(),
            old(self)@.fix_reads(job@) ==> old(self)@.ready(),
            Todo::FixVisible(job@).is_within(old(self)@.workspaces.len() as int),
        ensures
            final(self)@ == old(self)@.fix_stepped(job@, sizes@),
            old(self)@.unfit(job@, sizes@) matches Some(w) ==> {
                let ws = final(self)@.workspaces[job@.todo[0] as int];
                &&& ws.floats(w)
                &&& old(self)@.workspaces[job@.todo[0] as int].tree.valid()
                    ==> !ws.tree.windows().contains(w)
            },
            final(self)@.sound(),
            old(self)@.ready() ==> final(self)@.ready(),
            final(self)@.workspaces.len() == old(self)@.workspaces.len(),
    {
        if job.todo.len() == 0 {
            self.hide_unshown_workspaces();
            return ;
        }
        let ws_idx: usize = job.todo[0];
        assert(job@.todo[0] < self@.workspaces.len());
        let screen: Rect = self.screen_of(ws_idx);
        if !job.floating {
            let mut job = job;
            let ghost before = job@;
            let gaps = self.workspace_gaps(ws_idx);
            let ghost start = self@;
            let traded: bool = trade_places(
                &mut self.workspaces.get_mut(ws_idx).tree,
                screen,
                gaps,
                sizes,
                &mut job.settled,
            );
            if traded {
                self.apply_layout();
                self.emit(Effect::Pause { ms: 100 });
            } else {
                proof {
                    lemma_untraded(
                        Round {
                            tree: start.workspaces[ws_idx as int].tree,
                            settled: before.settled,
                            stuck: seq![],
                            traded: false,
                        },
                        screen,
                        gaps,
                        sizes@,
                        start.workspaces[ws_idx as int].tree.windows().len(),
                    );
                    assert(self@.workspaces =~= start.workspaces);
                    assert(self@ =~= start);
                }
                job.floating = true;
            }
            self.add_task(Task::FixVisible(job));
            return ;
        }
        let tiles = self.workspace_focus_geometries(ws_idx, screen);
        let none: Vec<WindowId> = Vec::new();
        let ghost start = self@;
        assert(none@ + none@ =~= seq![]);
        if tiles.len() > 1 {
            if let Some(size) = find_oversized(&tiles, sizes, &none, &none) {
                proof {
                    let p = is_oversized(sizes@, seq![]);
                    lemma_first_where_found(tiles@, p);
                    lemma_tile_has_rect(tiles@, first_where(tiles@, p)->0);
                }
                self.float_out(ws_idx, &tiles, size);
                self.add_task(Task::FixVisible(job));
                proof {
                    lemma_floated(
                        start.workspaces[ws_idx as int],
                        size.id,
                        start.float_spot(ws_idx, size),
                    );
                }
                return ;
            }
        }
        self.next_workspace(job);
    }

    fn moved_window_fits(
        &self,
        tiles: &Vec<(WindowId, Rect)>,
        moved: WindowId,
        sizes: &Vec<WindowSize>,
    ) -> (r: bool)
        ensures
            r == (match rect_of(tiles@, moved) {
                Some(rect) => match size_of(sizes@, moved) {
                    Some(size) => !exceeds(size, rect),
                    None => !exceeds(WindowSize { id: moved, width: 0, height: 0 }, rect),
                },
                None => true,
            }),
    {
        match find_rect(tiles, moved) {
            Some(rect) => {
                let size: WindowSize = match find_size(sizes, moved) {
                    Some(s) => s,
                    None => WindowSize { id: moved, width: 0, height: 0 },
                };
                !is_larger(&size, &rect)
            },
            None => true,
        }
    }

    /// One step of making room for a window that was moved to a workspace.
    pub fn target_step(&mut self, job: TargetJob, sizes: &Vec<WindowSize>)
        requires
            old(self)@.sound(),
            job@.ws_idx < old(self)@.workspaces.len(),
        ensures
            final(self)@ == old(self)@.target_stepped(job@, sizes@),
            final(self)@.sound(),
            old(self)@.ready() ==> final(self)@.ready(),
            final(self)@.workspaces.len() == old(self)@.workspaces.len(),
    {
        let ws_idx: usize = job.ws_idx;
        if self.monitor_showing_workspace(ws_idx).is_none() {
            return ;
        }
        let screen: Rect = self.screen_of(ws_idx);
        let tiles = self.workspace_focus_geometries(ws_idx, screen);
        if !job.checked && self.moved_window_fits(&tiles, job.moved, sizes) {
            return ;
        }
        let none: Vec<WindowId> = Vec::new();
        assert(job.settled@ + none@ =~= job.settled@);
        if let Some(size) = find_oversized(&tiles, sizes, &job.settled, &none) {
            let mut job = job;
            job.checked = true;
            match find_host(&tiles, &size, &job.settled) {
                Some(other) => {
                    let _ = self.workspaces.get_mut(ws_idx).tree.swap(size.id, other);
                    self.apply_layout();
                    job.settled.push(size.id);
                    self.add_task(Task::FixTarget(job));
                },
                None => {
                    if self.stack_for(ws_idx, size.id) {
                        self.add_task(Task::FixTarget(job));
                    }
                },
            }
        }
    }
}

/// A window that is let float does, and is tiled no more.
pub proof fn lemma_floated(ws: Ws, w: WindowId, geometry: Rect)
    ensures
        ws.floated(w, geometry).floats(w),
        ws.tree.valid() ==> !ws.floated(w, geometry).tree.windows().contains(w),
{
    assert(float_ids(ws.floated(w, geometry).floating)[ws.floating.len() as int] == w);
    if ws.tree.valid() {
        law_remove_keeps_wf(ws.tree, w);
    }
}

/// The window of a tile has a rectangle.
proof fn lemma_tile_has_rect(tiles: Seq<(WindowId, Rect)>, i: int)
    requires
        0 <= i < tiles.len(),
    ensures
        rect_of(tiles, tiles[i].0) is Some,
    decreases tiles.len(),
{
    if tiles[0].0 != tiles[i].0 {
        assert(tiles.drop_first()[i - 1] == tiles[i]);
        lemma_tile_has_rect(tiles.drop_first(), i - 1);
    }
}

/// A round in which nothing is traded leaves the tree and those settled alone.
proof fn lemma_untraded(
    round: Round,
    rect: Rect,
    gaps: (i64, i64),
    sizes: Seq<WindowSize>,
    steps: nat,
)
    requires
        !traded(round, rect, gaps, sizes, steps).traded,
    ensures
        traded(round, rect, gaps, sizes, steps).tree == round.tree,
        traded(round, rect, gaps, sizes, steps).settled == round.settled,
        !round.traded,
    decreases steps,
{
    let tiles = round.tree.focus_geometries(rect, gaps.0, gaps.1, true);
    match oversized(tiles, sizes, round.settled + round.stuck) {
        Some(w) if steps > 0 => match best_host(tiles, size_of(sizes, w)->0, round.settled) {
            Some(other) => {
                lemma_untraded(
                    Round {
                        tree: round.tree.swapped(w, other),
                        settled: round.settled.push(w),
                        traded: true,
                        ..round
                    },
                    rect,
                    gaps,
                    sizes,
                    (steps - 1) as nat,
                );
            },
            None => {
                lemma_untraded(
                    Round { stuck: round.stuck.push(w), ..round },
                    rect,
                    gaps,
                    sizes,
                    (steps - 1) as nat,
                );
            },
        },
        _ => {},
    }
}

} // verus!
