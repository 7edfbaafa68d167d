//! What a request does, and how it is answered.
use vstd::prelude::*;
use crate::config::keybinds::direction_named;
use crate::ipc::protocol::{
    float_infos, summaries, tile_infos, ws_infos, Content, FloatingInfo, FocusInfo, FocusedInfo,
    LiveWindow, MonitorInfo, Payload, Reply, Request, Response, StackInfo, TileInfo, TiledInfo,
    WindowSummary, WorkspaceInfo, WsInfo,
};
use crate::seqs::{position, position_u32, sort_slot, sorted};
use crate::text::{copy, lex_less, parse_number, parsed_number, same, text_less, views};
use crate::wm::geometry::{Direction, Rect};
use crate::wm::monitor::Monitor;
use crate::wm::state::{Wm, WmState};
use crate::wm::window::{window_of, WindowId};
use crate::wm::workspace::{target_named, FloatingWindow, Workspace, WorkspaceTarget, Ws};

verus! {

/// What a request or an action asks of the program around the window manager.
#[derive(Debug)]
pub enum HostRequest {
    Nothing,
    Reload,
    Exec(String),
    SpawnTerminal,
    Exit,
}

/// What is asked of the program around, as a mathematical value.
pub enum Host {
    Nothing,
    Reload,
    Exec(Seq<char>),
    SpawnTerminal,
    Exit,
}

impl View for HostRequest {
    type V = Host;

    open spec fn view(&self) -> Host {
        match self {
            HostRequest::Nothing => Host::Nothing,
            HostRequest::Reload => Host::Reload,
            HostRequest::Exec(command) => Host::Exec(command@),
            HostRequest::SpawnTerminal => Host::SpawnTerminal,
            HostRequest::Exit => Host::Exit,
        }
    }
}

/// Reads a direction.
pub fn parse_dir(s: &str) -> (r: Option<Direction>)
    ensures
        r == direction_named(s@),
{
    if same(s, "left") {
        Some(Direction::Left)
    } else if same(s, "right") {
        Some(Direction::Right)
    } else if same(s, "up") {
        Some(Direction::Up)
    } else if same(s, "down") {
        Some(Direction::Down)
    } else {
        None
    }
}

/// The direction that the first argument names.
pub open spec fn dir_argument(args: Seq<Seq<char>>) -> Option<Direction> {
    if args.len() > 0 {
        direction_named(args[0])
    } else {
        None
    }
}

fn read_dir(args: &Vec<String>) -> (r: Option<Direction>)
    ensures
        r == dir_argument(views(args@)),
{
    if args.len() > 0 {
        parse_dir(args[0].as_str())
    } else {
        None
    }
}

/// The workspace that the first argument names.
pub open spec fn target_argument(args: Seq<Seq<char>>) -> Option<WorkspaceTarget> {
    if args.len() > 0 {
        target_named(args[0])
    } else {
        None
    }
}

fn read_target(args: &Vec<String>) -> (r: Option<WorkspaceTarget>)
    ensures
        r == target_argument(views(args@)),
{
    if args.len() > 0 {
        WorkspaceTarget::parse(args[0].as_str())
    } else {
        None
    }
}

// --- Requests that change something ---

/// The state once a request has been dealt with.
pub open spec fn obeyed(wm: Wm, command: Seq<char>, args: Seq<Seq<char>>) -> Wm {
    if command == "reload"@ || command == "exec"@ {
        wm
    } else if command == "focus"@ {
        match dir_argument(args) {
            Some(d) => wm.focus_moved(d),
            None => wm,
        }
    } else if command == "swap"@ {
        match dir_argument(args) {
            Some(d) => wm.swap_moved(d),
            None => wm,
        }
    } else if command == "resize"@ {
        match dir_argument(args) {
            Some(d) => wm.resize_moved(d),
            None => wm,
        }
    } else if command == "close"@ {
        wm.close_asked()
    } else if command == "equalize"@ {
        wm.made_even()
    } else if command == "unstack"@ {
        wm.restacked(false)
    } else if command == "workspace"@ {
        match target_argument(args) {
            Some(t) => wm.switched(t.id()),
            None => wm,
        }
    } else if command == "move-to-workspace"@ {
        match target_argument(args) {
            Some(t) => wm.moved_to_workspace(t.id()),
            None => wm,
        }
    } else if command == "toggle-floating"@ {
        wm.float_switched()
    } else if command == "toggle-special"@ {
        if args.len() > 0 {
            wm.special_toggled(args[0])
        } else {
            wm
        }
    } else if command == "move-to-special"@ {
        if args.len() > 0 {
            wm.moved_to_special(args[0])
        } else {
            wm
        }
    } else {
        wm
    }
}

/// Whether dealing with a request takes a look at the active workspace. A
/// request that cannot be read does not, nor does one that is about no monitor.
pub open spec fn reads_active(command: Seq<char>, args: Seq<Seq<char>>) -> bool {
    if command == "reload"@ || command == "exec"@ {
        false
    } else if command == "focus"@ || command == "swap"@ || command == "resize"@ {
        dir_argument(args) is Some
    } else if command == "close"@ || command == "equalize"@ || command == "unstack"@ {
        true
    } else if command == "workspace"@ || command == "move-to-workspace"@ {
        target_argument(args) is Some
    } else if command == "toggle-floating"@ {
        true
    } else if command == "toggle-special"@ || command == "move-to-special"@ {
        args.len() > 0
    } else if command == "get-workspaces"@ || command == "get-focused"@ {
        true
    } else if command == "get-windows"@ || command == "get-monitors"@ {
        false
    } else {
        command == "get-tree"@
    }
}

/// What a request asks of the program around.
pub open spec fn host_asked(command: Seq<char>, args: Seq<Seq<char>>) -> Host {
    if command == "reload"@ {
        Host::Reload
    } else if command == "exec"@ && args.len() > 0 {
        Host::Exec(args[0])
    } else {
        Host::Nothing
    }
}

/// An answer that only says whether a request could be read.
pub open spec fn done_if(readable: bool, usage: Seq<char>) -> Reply {
    if readable {
        Reply::Done
    } else {
        Reply::Failed(usage)
    }
}

// --- Requests that ask something ---

impl Wm {
    /// The name of the program of a window.
    pub open spec fn app_of(self, id: WindowId) -> Seq<char> {
        match window_of(self.registry, id) {
            Some(w) => w.app_name,
            None => seq![],
        }
    }

    /// A workspace as it is listed.
    pub open spec fn ws_info(self, ws: Ws) -> WsInfo {
        WsInfo {
            id: ws.id.text(),
            active: ws.id.text() == self.active().id.text(),
            windows: ws.window_ids().len(),
            focused: ws.focused,
        }
    }

    /// All workspaces as they are listed, by their names.
    pub open spec fn ws_list(self) -> Seq<WsInfo> {
        sorted(
            Seq::new(self.workspaces.len(), |i: int| self.ws_info(self.workspaces[i])),
            later_info(),
        )
    }

    /// The focused window as it is described.
    pub open spec fn focus_info(self, id: WindowId, live: Option<(Seq<char>, Rect)>) -> FocusInfo {
        FocusInfo {
            id,
            app_name: self.app_of(id),
            title: match live {
                Some(l) => l.0,
                None => seq![],
            },
            rect: match live {
                Some(l) => l.1,
                None => Rect { x: 0, y: 0, width: 0, height: 0 },
            },
            floating: self.active().floats(id),
            stack: match self.active().tree.stack_of(id) {
                Some((members, active)) => Some(
                    (
                        members,
                        active,
                        if 0 <= active < members.len() {
                            Some(members[active])
                        } else {
                            None
                        },
                    ),
                ),
                None => None,
            },
            workspace: self.active().id.text(),
        }
    }

    /// All windows as they are listed.
    pub open spec fn win_list(self) -> Seq<(u32, Seq<char>, Seq<char>, bool)> {
        Seq::new(
            self.registry.len(),
            |i: int|
                (
                    self.registry[i].id,
                    self.registry[i].app_name,
                    self.registry[i].title,
                    self.registry[i].floating,
                ),
        )
    }

    /// All monitors as they are listed.
    pub open spec fn monitor_list(self) -> Seq<MonitorInfo> {
        Seq::new(
            self.monitors.len(),
            |i: int|
                MonitorInfo {
                    id: self.monitors[i].id,
                    index: i as usize,
                    frame: self.monitors[i].frame,
                    usable_frame: self.monitors[i].usable_frame,
                    is_primary: self.monitors[i].is_primary,
                    active_workspace: (self.monitors[i].active_workspace + 1) as usize,
                    focused: i == self.focused_monitor,
                },
        )
    }

    /// The workspace whose windows are asked for: that of a number from 1, or
    /// else the active one.
    pub open spec fn tree_index(self, args: Seq<Seq<char>>) -> usize {
        let asked = if args.len() > 0 {
            parsed_number(args[0], 255)
        } else {
            None
        };
        match asked {
            Some(n) => (if n > 0 {
                n - 1
            } else {
                0
            }) as usize,
            None => self.active_idx(),
        }
    }

    /// A tiled window as it is described.
    pub open spec fn tile_info(self, ws_idx: usize, geometry: (WindowId, Rect)) -> TileInfo {
        let (id, rect) = geometry;
        let stack = self.workspaces[ws_idx as int].tree.stack_of(id);
        TileInfo {
            id,
            app_name: self.app_of(id),
            rect,
            stacked: stack is Some,
            stack_index: match stack {
                Some((members, _)) => match position(members, id) {
                    Some(i) => Some(i as usize),
                    None => None,
                },
                None => None,
            },
            stack_active: match stack {
                Some((members, active)) => 0 <= active < members.len() && members[active] == id,
                None => false,
            },
        }
    }

    /// The area of the monitor that shows a workspace, or else of the focused
    /// one.
    pub open spec fn area_of(self, ws_idx: usize) -> Rect {
        match self.showing(ws_idx) {
            Some(mi) => self.rect_on(mi),
            None => self.focused_rect(),
        }
    }

    pub open spec fn tile_list(self, ws_idx: usize) -> Seq<TileInfo> {
        let geometries = self.tiles(ws_idx, self.area_of(ws_idx));
        Seq::new(geometries.len(), |i: int| self.tile_info(ws_idx, geometries[i]))
    }

    pub open spec fn float_list(self, ws_idx: usize) -> Seq<(u32, Seq<char>, Rect)> {
        let floating = self.workspaces[ws_idx as int].floating;
        Seq::new(
            floating.len(),
            |i: int| (floating[i].id, self.app_of(floating[i].id), floating[i].geometry),
        )
    }
}

/// Compares workspaces by their names.
pub open spec fn later_info() -> spec_fn(WsInfo, WsInfo) -> bool {
    |a: WsInfo, b: WsInfo| lex_less(b.id, a.id)
}

/// The answer to a request.
pub open spec fn answer(
    wm: Wm,
    command: Seq<char>,
    args: Seq<Seq<char>>,
    live: Option<(Seq<char>, Rect)>,
) -> Reply {
    if command == "reload"@ {
        Reply::Done
    } else if command == "exec"@ {
        done_if(args.len() > 0, "usage: exec <command>"@)
    } else if command == "focus"@ {
        done_if(dir_argument(args) is Some, "usage: focus left|right|up|down"@)
    } else if command == "swap"@ {
        done_if(dir_argument(args) is Some, "usage: swap left|right|up|down"@)
    } else if command == "resize"@ {
        done_if(dir_argument(args) is Some, "usage: resize left|right|up|down"@)
    } else if command == "close"@ || command == "equalize"@ || command == "unstack"@ {
        Reply::Done
    } else if command == "workspace"@ {
        done_if(target_argument(args) is Some, "usage: workspace <1-10|A-Z>"@)
    } else if command == "move-to-workspace"@ {
        done_if(target_argument(args) is Some, "usage: move-to-workspace <1-10|A-Z>"@)
    } else if command == "toggle-floating"@ {
        Reply::Done
    } else if command == "toggle-special"@ {
        done_if(args.len() > 0, "usage: toggle-special <name>"@)
    } else if command == "move-to-special"@ {
        done_if(args.len() > 0, "usage: move-to-special <name>"@)
    } else if command == "get-workspaces"@ {
        Reply::Data(
            Content::Workspaces { active: wm.active().id.text(), workspaces: wm.ws_list() },
        )
    } else if command == "get-focused"@ {
        match wm.active().focused {
            Some(id) => Reply::Data(Content::Focused(wm.focus_info(id, live))),
            None => Reply::Data(Content::NoFocus),
        }
    } else if command == "get-windows"@ {
        Reply::Data(Content::Windows(wm.win_list()))
    } else if command == "get-monitors"@ {
        Reply::Data(Content::Monitors(wm.monitor_list()))
    } else if command == "get-tree"@ {
        let ws_idx = wm.tree_index(args);
        Reply::Data(
            Content::Tree {
                workspace: wm.workspaces[ws_idx as int].id.text(),
                tiled: wm.tile_list(ws_idx),
                floating: wm.float_list(ws_idx),
            },
        )
    } else {
        Reply::Failed("unknown command: "@ + command)
    }
}

// --- Answering ---

impl WmState {
    pub fn app_name_of(&self, id: WindowId) -> (r: String)
        ensures
            r@ == self@.app_of(id),
    {
        match self.registry.get(id) {
            Some(w) => copy(w.app_name.as_str()),
            None => {
                let r = String::new();
                assert(r@ =~= seq![]);
                r
            },
        }
    }

    fn describe_workspace(&self, ws: &Workspace, active_id: &str) -> (r: WorkspaceInfo)
        requires
            active_id@ == self@.active().id.text(),
        ensures
            r@ == self@.ws_info(ws@),
    {
        let id = ws.id.to_string();
        let active: bool = same(id.as_str(), active_id);
        WorkspaceInfo { id, active, windows: ws.all_window_ids().len(), focused: ws.focused }
    }

    fn list_workspaces(&self) -> (r: Response)
        requires
            self@.ready(),
        ensures
            r.says(
                Reply::Data(
                    Content::Workspaces {
                        active: self@.active().id.text(),
                        workspaces: self@.ws_list(),
                    },
                ),
            ),
    {
        let active_id = self.active_workspace().id.to_string();
        let ghost all = Seq::new(
            self@.workspaces.len(),
            |i: int| self@.ws_info(self@.workspaces[i]),
        );
        let ghost gt = later_info();
        let mut list: Vec<WorkspaceInfo> = Vec::new();
        let n: usize = self.workspaces.count();
        let mut i: usize = 0;
        assert(ws_infos(list@) =~= sorted(all.take(0), gt));
        while i < n
            invariant
                active_id@ == self@.active().id.text(),
                n == self@.workspaces.len(),
                all == Seq::new(
                    self@.workspaces.len(),
                    |i: int| self@.ws_info(self@.workspaces[i]),
                ),
                gt == later_info(),
                i <= n,
                ws_infos(list@) == sorted(all.take(i as int), gt),
            decreases n - i,
        {
            let info = self.describe_workspace(self.workspaces.get(i), active_id.as_str());
            assert(info@ == all[i as int]);
            let ghost before = ws_infos(list@);
            let mut slot: usize = list.len();
            assert(before.take(slot as int) =~= before);
            while slot > 0
                invariant_except_break
                    gt == later_info(),
                    before == ws_infos(list@),
                    slot <= list@.len(),
                    sort_slot(before, gt, info@) == sort_slot(before.take(slot as int), gt, info@),
                ensures
                    slot <= list@.len(),
                    slot == sort_slot(before, gt, info@),
                decreases slot,
            {
                assert(before.take(slot as int).last() == list@[slot - 1]@);
                if !text_less(info.id.as_str(), list[slot - 1].id.as_str()) {
                    break;
                }
                assert(before.take(slot as int).drop_last() =~= before.take(slot - 1));
                slot = slot - 1;
            }
            proof {
                assert(all.take(i + 1).drop_last() =~= all.take(i as int));
                assert(all.take(i + 1).last() == info@);
            }
            list.insert(slot, info);
            assert(ws_infos(list@) =~= before.insert(slot as int, all[i as int]));
            i = i + 1;
        }
        assert(all.take(all.len() as int) =~= all);
        Response::ok(Payload::Workspaces { active: active_id, workspaces: list })
    }

    fn describe_focus(&self, live: &Option<LiveWindow>) -> (r: Response)
        requires
            self@.ready(),
        ensures
            r.says(
                match self@.active().focused {
                    Some(id) => Reply::Data(
                        Content::Focused(self@.focus_info(id, live_view(*live))),
                    ),
                    None => Reply::Data(Content::NoFocus),
                },
            ),
    {
        let ws = self.active_workspace();
        let id: WindowId = match ws.focused {
            Some(id) => id,
            None => {
                return Response::ok(Payload::NoFocus);
            },
        };
        let stack = match ws.tree.stack_info(id) {
            Some((members, active_index)) => {
                let active = if active_index < members.len() {
                    Some(members[active_index])
                } else {
                    None
                };
                Some(StackInfo { members, active_index, active })
            },
            None => None,
        };
        let (title, rect) = match live {
            Some(l) => (copy(l.title.as_str()), l.rect),
            None => {
                let empty = String::new();
                assert(empty@ =~= seq![]);
                (empty, Rect::new(0, 0, 0, 0))
            },
        };
        let info = FocusedInfo {
            id,
            app_name: self.app_name_of(id),
            title,
            rect,
            floating: ws.is_floating(id),
            stack,
            workspace: ws.id.to_string(),
        };
        Response::ok(Payload::Focused(info))
    }

    fn list_windows(&self) -> (r: Response)
        ensures
            r.says(Reply::Data(Content::Windows(self@.win_list()))),
    {
        let windows = self.registry.all();
        let ghost all = self@.win_list();
        let mut list: Vec<WindowSummary> = Vec::new();
        let mut i: usize = 0;
        while i < windows.len()
            invariant
                all == self@.win_list(),
                windows@.len() == all.len(),
                forall|j: int|
                    0 <= j < windows@.len() ==> (#[trigger] windows@[j])@ == self@.registry[j],
                i <= windows@.len(),
                summaries(list@) == all.take(i as int),
            decreases windows.len() - i,
        {
            let ghost before = summaries(list@);
            assert(windows@[i as int]@ == self@.registry[i as int]);
            list.push(
                WindowSummary {
                    id: windows[i].id,
                    app_name: copy(windows[i].app_name.as_str()),
                    title: copy(windows[i].title.as_str()),
                    floating: windows[i].floating,
                },
            );
            assert(summaries(list@) =~= before.push(all[i as int]));
            assert(all.take(i + 1) =~= all.take(i as int).push(all[i as int]));
            i = i + 1;
        }
        assert(all.take(all.len() as int) =~= all);
        Response::ok(Payload::Windows(list))
    }

    fn list_monitors(&self) -> (r: Response)
        requires
            self@.sound(),
        ensures
            r.says(Reply::Data(Content::Monitors(self@.monitor_list()))),
    {
        let ghost all = self@.monitor_list();
        let mut list: Vec<MonitorInfo> = Vec::new();
        let mut i: usize = 0;
        while i < self.monitors.len()
            invariant
                self@.sound(),
                all == self@.monitor_list(),
                i <= self.monitors@.len(),
                list@ == all.take(i as int),
            decreases self.monitors.len() - i,
        {
            let m: Monitor = self.monitors[i];
            assert(m == self@.monitors[i as int]);
            list.push(
                MonitorInfo {
                    id: m.id,
                    index: i,
                    frame: m.frame,
                    usable_frame: m.usable_frame,
                    is_primary: m.is_primary,
                    active_workspace: m.active_workspace + 1,
                    focused: i == self.focused_monitor,
                },
            );
            assert(list@ =~= all.take(i + 1));
            i = i + 1;
        }
        assert(all.take(all.len() as int) =~= all);
        Response::ok(Payload::Monitors(list))
    }

    /// Which workspace a request for windows is about.
    pub fn tree_request_index(&self, args: &Vec<String>) -> (r: usize)
        requires
            args@.len() > 0 && parsed_number(args@[0]@, 255) is Some || self@.ready(),
        ensures
            r == self@.tree_index(views(args@)),
    {
        if args.len() > 0 {
            if let Some(n) = parse_number(args[0].as_str(), 255) {
                return if n > 0 {
                    (n - 1) as usize
                } else {
                    0
                };
            }
        }
        self.active_ws_idx()
    }

    fn describe_tile(&self, ws_idx: usize, id: WindowId, rect: Rect) -> (r: TiledInfo)
        requires
            ws_idx < self@.workspaces.len(),
        ensures
            r@ == self@.tile_info(ws_idx, (id, rect)),
    {
        let app_name = self.app_name_of(id);
        match self.workspaces.get(ws_idx).tree.stack_info(id) {
            Some((members, active)) => TiledInfo {
                id,
                app_name,
                rect,
                stacked: true,
                stack_index: position_u32(&members, id),
                stack_active: active < members.len() && members[active] == id,
            },
            None => TiledInfo {
                id,
                app_name,
                rect,
                stacked: false,
                stack_index: None,
                stack_active: false,
            },
        }
    }

    fn describe_tree(&self, ws_idx: usize) -> (r: Response)
        requires
            self@.ready(),
            ws_idx < self@.workspaces.len(),
        ensures
            r.says(
                Reply::Data(
                    Content::Tree {
                        workspace: self@.workspaces[ws_idx as int].id.text(),
                        tiled: self@.tile_list(ws_idx),
                        floating: self@.float_list(ws_idx),
                    },
                ),
            ),
    {
        let rect: Rect = match self.monitor_showing_workspace(ws_idx) {
            Some(mi) => self.monitor_rect(mi),
            None => self.focused_rect(),
        };
        let geometries = self.workspace_render_geometries(ws_idx, rect);
        let ghost all = self@.tile_list(ws_idx);
        let mut tiled: Vec<TiledInfo> = Vec::new();
        let mut i: usize = 0;
        while i < geometries.len()
            invariant
                ws_idx < self@.workspaces.len(),
                geometries@ == self@.tiles(ws_idx, self@.area_of(ws_idx)),
                all == self@.tile_list(ws_idx),
                i <= geometries@.len(),
                tile_infos(tiled@) == all.take(i as int),
            decreases geometries.len() - i,
        {
            let ghost before = tile_infos(tiled@);
            tiled.push(self.describe_tile(ws_idx, geometries[i].0, geometries[i].1));
            assert(tile_infos(tiled@) =~= before.push(all[i as int]));
            assert(all.take(i + 1) =~= all.take(i as int).push(all[i as int]));
            i = i + 1;
        }
        assert(all.take(all.len() as int) =~= all);
        let ws = self.workspaces.get(ws_idx);
        let ghost floats = self@.float_list(ws_idx);
        let mut floating: Vec<FloatingInfo> = Vec::new();
        let mut k: usize = 0;
        while k < ws.floating.len()
            invariant
                ws@ == self@.workspaces[ws_idx as int],
                floats == self@.float_list(ws_idx),
                k <= ws.floating@.len(),
                float_infos(floating@) == floats.take(k as int),
            decreases ws.floating.len() - k,
        {
            let ghost before = float_infos(floating@);
            let fw: FloatingWindow = ws.floating[k];
            floating.push(
                FloatingInfo { id: fw.id, app_name: self.app_name_of(fw.id), rect: fw.geometry },
            );
            assert(float_infos(floating@) =~= before.push(floats[k as int]));
            assert(floats.take(k + 1) =~= floats.take(k as int).push(floats[k as int]));
            k = k + 1;
        }
        assert(floats.take(floats.len() as int) =~= floats);
        Response::ok(Payload::Tree { workspace: ws.id.to_string(), tiled, floating })
    }

    fn obey_on_windows(&mut self, command: &str, dir: Option<Direction>)
        requires
            old(self)@.sound(),
            command@ == "focus"@ || command@ == "swap"@ || command@ == "resize"@ ==> (dir is Some
                ==> old(self)@.ready()),
            !(command@ == "focus"@ || command@ == "swap"@ || command@ == "resize"@)
                ==> old(self)@.ready(),
        ensures
            final(self)@ == (if command@ == "focus"@ {
                match dir {
                    Some(d) => old(self)@.focus_moved(d),
                    None => old(self)@,
                }
            } else if command@ == "swap"@ {
                match dir {
                    Some(d) => old(self)@.swap_moved(d),
                    None => old(self)@,
                }
            } else if command@ == "resize"@ {
                match dir {
                    Some(d) => old(self)@.resize_moved(d),
                    None => old(self)@,
                }
            } else if command@ == "close"@ {
                old(self)@.close_asked()
            } else if command@ == "equalize"@ {
                old(self)@.made_even()
            } else {
                old(self)@.restacked(false)
            }),
            final(self)@.sound(),
            old(self)@.ready() ==> final(self)@.ready(),
    {
        if same(command, "focus") {
            if let Some(d) = dir {
                self.focus_direction(d);
            }
        } else if same(command, "swap") {
            if let Some(d) = dir {
                self.swap_direction(d);
            }
        } else if same(command, "resize") {
            if let Some(d) = dir {
                self.resize_direction(d);
            }
        } else if same(command, "close") {
            self.close_focused();
        } else if same(command, "equalize") {
            self.equalize();
        } else {
            self.unstack_focused();
        }
    }

    fn obey(&mut self, command: &str, args: &Vec<String>)
        requires
            old(self)@.sound(),
            reads_active(command@, views(args@)) ==> old(self)@.ready(),
        ensures
            final(self)@ == obeyed(old(self)@, command@, views(args@)),
            final(self)@.sound(),
            old(self)@.ready() ==> final(self)@.ready(),
    {
        if same(command, "reload") || same(command, "exec") {
            return;
        }
        if same(command, "focus") || same(command, "swap") || same(command, "resize") || same(
            command,
            "close",
        ) || same(command, "equalize") || same(command, "unstack") {
            self.obey_on_windows(command, read_dir(args));
        } else if same(command, "workspace") {
            if let Some(t) = read_target(args) {
                self.switch_workspace(&t);
            }
        } else if same(command, "move-to-workspace") {
            if let Some(t) = read_target(args) {
                self.move_to_workspace(&t);
            }
        } else if same(command, "toggle-floating") {
            self.toggle_float();
        } else if same(command, "toggle-special") {
            if args.len() > 0 {
                self.toggle_special(args[0].as_str());
            }
        } else if same(command, "move-to-special") {
            if args.len() > 0 {
                self.move_to_special(args[0].as_str());
            }
        }
    }

    fn reply(&self, command: &str, args: &Vec<String>, live: &Option<LiveWindow>) -> (r: Response)
        requires
            self@.sound(),
            reads_active(command@, views(args@)) ==> self@.ready(),
            command@ == "get-tree"@ ==> self@.tree_index(views(args@)) < self@.workspaces.len(),
        ensures
            r.says(answer(self@, command@, views(args@), live_view(*live))),
    {
        if same(command, "reload") {
            Response::ok_empty()
        } else if same(command, "exec") {
            done_or(args.len() > 0, "usage: exec <command>")
        } else if same(command, "focus") {
            done_or(read_dir(args).is_some(), "usage: focus left|right|up|down")
        } else if same(command, "swap") {
            done_or(read_dir(args).is_some(), "usage: swap left|right|up|down")
        } else if same(command, "resize") {
            done_or(read_dir(args).is_some(), "usage: resize left|right|up|down")
        } else if same(command, "close") || same(command, "equalize") || same(command, "unstack") {
            Response::ok_empty()
        } else if same(command, "workspace") {
            done_or(read_target(args).is_some(), "usage: workspace <1-10|A-Z>")
        } else if same(command, "move-to-workspace") {
            done_or(read_target(args).is_some(), "usage: move-to-workspace <1-10|A-Z>")
        } else if same(command, "toggle-floating") {
            Response::ok_empty()
        } else if same(command, "toggle-special") {
            done_or(args.len() > 0, "usage: toggle-special <name>")
        } else if same(command, "move-to-special") {
            done_or(args.len() > 0, "usage: move-to-special <name>")
        } else if same(command, "get-workspaces") {
            self.list_workspaces()
        } else if same(command, "get-focused") {
            self.describe_focus(live)
        } else if same(command, "get-windows") {
            self.list_windows()
        } else if same(command, "get-monitors") {
            self.list_monitors()
        } else if same(command, "get-tree") {
            self.describe_tree(self.tree_request_index(args))
        } else {
            let mut text = copy("unknown command: ");
            text.push_str(command);
            Response::err(text.as_str())
        }
    }

    /// Deals with a request. `live` is what the system says of the focused
    /// window of the active workspace.
    pub fn process_ipc_command(&mut self, request: &Request, live: &Option<LiveWindow>) -> (r: (
        Response,
        HostRequest,
    ))
        requires
            old(self)@.sound(),
            reads_active(request.command@, views(request.args@)) ==> old(self)@.ready(),
            request.command@ == "get-tree"@ ==> old(self)@.tree_index(views(request.args@))
                < old(self)@.workspaces.len(),
        ensures
            final(self)@ == obeyed(old(self)@, request.command@, views(request.args@)),
            final(self)@.sound(),
            old(self)@.ready() ==> final(self)@.ready(),
            r.0.says(
                answer(old(self)@, request.command@, views(request.args@), live_view(*live)),
            ),
            r.1@ == host_asked(request.command@, views(request.args@)),
    {
        let command: &str = request.command.as_str();
        let response = self.reply(command, &request.args, live);
        let host = if same(command, "reload") {
            HostRequest::Reload
        } else if same(command, "exec") && request.args.len() > 0 {
            HostRequest::Exec(copy(request.args[0].as_str()))
        } else {
            HostRequest::Nothing
        };
        self.obey(command, &request.args);
        (response, host)
    }
}

/// What the system says of a window, as a mathematical value.
pub open spec fn live_view(live: Option<LiveWindow>) -> Option<(Seq<char>, Rect)> {
    match live {
        Some(l) => Some((l.title@, l.rect)),
        None => None,
    }
}

fn done_or(readable: bool, usage: &str) -> (r: Response)
    ensures
        r.says(done_if(readable, usage@)),
{
    if readable {
        Response::ok_empty()
    } else {
        Response::err(usage)
    }
}

/// A request that cannot be read changes nothing, and is answered with how to
/// write it.
pub proof fn law_unreadable_request_changes_nothing(
    wm: Wm,
    command: Seq<char>,
    args: Seq<Seq<char>>,
    live: Option<(Seq<char>, Rect)>,
)
    requires
        answer(wm, command, args, live) is Failed,
    ensures
        obeyed(wm, command, args) == wm,
        host_asked(command, args) == Host::Nothing,
{
}

/// A question changes nothing.
pub proof fn law_questions_change_nothing(
    wm: Wm,
    command: Seq<char>,
    args: Seq<Seq<char>>,
    live: Option<(Seq<char>, Rect)>,
)
    requires
        answer(wm, command, args, live) is Data,
    ensures
        obeyed(wm, command, args) == wm,
        host_asked(command, args) == Host::Nothing,
{
}

} // verus!
