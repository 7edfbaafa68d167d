//! Requests from outside, the answers to them, and what happens on a
//! connection.
use vstd::prelude::*;
use crate::text::{copy, opt_view, same, trim, trimmed};
use crate::wm::geometry::Rect;

verus! {

/// A command and its arguments.
#[derive(Debug)]
pub struct Request {
    pub command: String,
    pub args: Vec<String>,
}

/// A workspace in an answer.
#[derive(Debug)]
pub struct WorkspaceInfo {
    pub id: String,
    pub active: bool,
    pub windows: usize,
    pub focused: Option<u32>,
}

/// A workspace in an answer, as a mathematical value.
pub struct WsInfo {
    pub id: Seq<char>,
    pub active: bool,
    pub windows: nat,
    pub focused: Option<u32>,
}

impl View for WorkspaceInfo {
    type V = WsInfo;

    open spec fn view(&self) -> WsInfo {
        WsInfo {
            id: self.id@,
            active: self.active,
            windows: self.windows as nat,
            focused: self.focused,
        }
    }
}

/// The stack of a window in an answer.
#[derive(Debug)]
pub struct StackInfo {
    pub members: Vec<u32>,
    pub active_index: usize,
    pub active: Option<u32>,
}

/// What the system says of a window now.
#[derive(Debug)]
pub struct LiveWindow {
    pub title: String,
    pub rect: Rect,
}

/// The focused window in an answer.
#[derive(Debug)]
pub struct FocusedInfo {
    pub id: u32,
    pub app_name: String,
    pub title: String,
    pub rect: Rect,
    pub floating: bool,
    pub stack: Option<StackInfo>,
    pub workspace: String,
}

/// The focused window in an answer, as a mathematical value. Of a stack it
/// holds the members and the place of the active one.
pub struct FocusInfo {
    pub id: u32,
    pub app_name: Seq<char>,
    pub title: Seq<char>,
    pub rect: Rect,
    pub floating: bool,
    pub stack: Option<(Seq<u32>, int, Option<u32>)>,
    pub workspace: Seq<char>,
}

pub open spec fn opt_stack(s: Option<StackInfo>) -> Option<(Seq<u32>, int, Option<u32>)> {
    match s {
        Some(s) => Some((s.members@, s.active_index as int, s.active)),
        None => None,
    }
}

impl View for FocusedInfo {
    type V = FocusInfo;

    open spec fn view(&self) -> FocusInfo {
        FocusInfo {
            id: self.id,
            app_name: self.app_name@,
            title: self.title@,
            rect: self.rect,
            floating: self.floating,
            stack: opt_stack(self.stack),
            workspace: self.workspace@,
        }
    }
}

/// A window in an answer.
#[derive(Debug)]
pub struct WindowSummary {
    pub id: u32,
    pub app_name: String,
    pub title: String,
    pub floating: bool,
}

/// A monitor in an answer.
#[derive(Clone, Copy, Debug, PartialEq, Eq, Structural)]
pub struct MonitorInfo {
    pub id: u32,
    pub index: usize,
    pub frame: Rect,
    pub usable_frame: Rect,
    pub is_primary: bool,
    /// The number of the workspace, from 1.
    pub active_workspace: usize,
    pub focused: bool,
}

/// A tiled window in an answer.
#[derive(Debug)]
pub struct TiledInfo {
    pub id: u32,
    pub app_name: String,
    pub rect: Rect,
    pub stacked: bool,
    pub stack_index: Option<usize>,
    pub stack_active: bool,
}

/// A tiled window in an answer, as a mathematical value.
pub struct TileInfo {
    pub id: u32,
    pub app_name: Seq<char>,
    pub rect: Rect,
    pub stacked: bool,
    pub stack_index: Option<usize>,
    pub stack_active: bool,
}

impl View for TiledInfo {
    type V = TileInfo;

    open spec fn view(&self) -> TileInfo {
        TileInfo {
            id: self.id,
            app_name: self.app_name@,
            rect: self.rect,
            stacked: self.stacked,
            stack_index: self.stack_index,
            stack_active: self.stack_active,
        }
    }
}

/// A floating window in an answer.
#[derive(Debug)]
pub struct FloatingInfo {
    pub id: u32,
    pub app_name: String,
    pub rect: Rect,
}

/// What an answer holds.
#[derive(Debug)]
pub enum Payload {
    Workspaces { active: String, workspaces: Vec<WorkspaceInfo> },
    NoFocus,
    Focused(FocusedInfo),
    Windows(Vec<WindowSummary>),
    Monitors(Vec<MonitorInfo>),
    Tree { workspace: String, tiled: Vec<TiledInfo>, floating: Vec<FloatingInfo> },
}

/// What an answer holds, as a mathematical value.
pub enum Content {
    Workspaces { active: Seq<char>, workspaces: Seq<WsInfo> },
    NoFocus,
    Focused(FocusInfo),
    Windows(Seq<(u32, Seq<char>, Seq<char>, bool)>),
    Monitors(Seq<MonitorInfo>),
    Tree {
        workspace: Seq<char>,
        tiled: Seq<TileInfo>,
        floating: Seq<(u32, Seq<char>, Rect)>,
    },
}

pub open spec fn ws_infos(s: Seq<WorkspaceInfo>) -> Seq<WsInfo> {
    Seq::new(s.len(), |i: int| s[i]@)
}

pub open spec fn summaries(s: Seq<WindowSummary>) -> Seq<(u32, Seq<char>, Seq<char>, bool)> {
    Seq::new(s.len(), |i: int| (s[i].id, s[i].app_name@, s[i].title@, s[i].floating))
}

pub open spec fn tile_infos(s: Seq<TiledInfo>) -> Seq<TileInfo> {
    Seq::new(s.len(), |i: int| s[i]@)
}

pub open spec fn float_infos(s: Seq<FloatingInfo>) -> Seq<(u32, Seq<char>, Rect)> {
    Seq::new(s.len(), |i: int| (s[i].id, s[i].app_name@, s[i].rect))
}

impl View for Payload {
    type V = Content;

    open spec fn view(&self) -> Content {
        match self {
            Payload::Workspaces { active, workspaces } => Content::Workspaces {
                active: active@,
                workspaces: ws_infos(workspaces@),
            },
            Payload::NoFocus => Content::NoFocus,
            Payload::Focused(info) => Content::Focused(info@),
            Payload::Windows(list) => Content::Windows(summaries(list@)),
            Payload::Monitors(list) => Content::Monitors(list@),
            Payload::Tree { workspace, tiled, floating } => Content::Tree {
                workspace: workspace@,
                tiled: tile_infos(tiled@),
                floating: float_infos(floating@),
            },
        }
    }
}

/// An answer.
#[derive(Debug)]
pub struct Response {
    pub success: bool,
    pub data: Option<Payload>,
    pub error: Option<String>,
}

/// An answer as a mathematical value.
pub enum Reply {
    Done,
    Data(Content),
    Failed(Seq<char>),
}

impl Response {
    /// Whether the answer says one thing: it either succeeded, with data or
    /// without, or failed with a reason.
    pub open spec fn says(self, reply: Reply) -> bool {
        match reply {
            Reply::Done => self.success && self.data is None && self.error is None,
            Reply::Data(content) => self.success && (self.data matches Some(p) && p@ == content)
                && self.error is None,
            Reply::Failed(reason) => !self.success && self.data is None && opt_view(self.error)
                == Some(reason),
        }
    }

    pub fn ok(data: Payload) -> (r: Self)
        ensures
            r.says(Reply::Data(data@)),
    {
        Response { success: true, data: Some(data), error: None }
    }

    pub fn ok_empty() -> (r: Self)
        ensures
            r.says(Reply::Done),
    {
        Response { success: true, data: None, error: None }
    }

    pub fn err(msg: &str) -> (r: Self)
        ensures
            r.says(Reply::Failed(msg@)),
    {
        Response { success: false, data: None, error: Some(copy(msg)) }
    }
}

// --- The socket ---

/// Where requests come in: at the place that the user chose, or at one of
/// the user's own.
pub open spec fn socket_place(chosen: Option<Seq<char>>, user: Option<Seq<char>>) -> Seq<char> {
    match chosen {
        Some(path) => path,
        None => "/tmp/tarmac-"@ + (match user {
            Some(name) => name,
            None => "unknown"@,
        }) + ".sock"@,
    }
}

pub fn socket_path(chosen: &Option<String>, user: &Option<String>) -> (r: String)
    ensures
        r@ == socket_place(opt_view(*chosen), opt_view(*user)),
{
    match chosen {
        Some(path) => copy(path.as_str()),
        None => {
            let mut out = copy("/tmp/tarmac-");
            match user {
                Some(name) => {
                    out.push_str(name.as_str());
                },
                None => {
                    out.push_str("unknown");
                },
            }
            out.push_str(".sock");
            out
        },
    }
}

// --- A connection ---

/// What to do with a line that came in.
#[derive(Debug)]
pub enum LineStep {
    /// Nothing: the line is empty.
    Skip,
    /// Answer at once.
    Answer(Response),
    /// Send events from now on, those that the filters let through.
    Subscribe(Vec<String>),
    /// Hand the request on and wait for the answer.
    Forward(Request),
}

/// What to do with a line. `parsed` is what the line was read as, or the
/// reason why it could not be read.
pub fn handle_line(line: &str, parsed: Result<Request, String>) -> (r: LineStep)
    ensures
        if trimmed(line@).len() == 0 {
            r is Skip
        } else {
            match parsed {
                Err(reason) => r matches LineStep::Answer(a) && a.says(
                    Reply::Failed("invalid JSON: "@ + reason@),
                ),
                Ok(request) => if request.command@ == "subscribe"@ {
                    r matches LineStep::Subscribe(filters) && filters == request.args
                } else {
                    r matches LineStep::Forward(q) && q == request
                },
            }
        },
{
    if trim(line).as_str().is_empty() {
        return LineStep::Skip;
    }
    match parsed {
        Err(reason) => {
            let mut text = copy("invalid JSON: ");
            text.push_str(reason.as_str());
            LineStep::Answer(Response::err(text.as_str()))
        },
        Ok(request) => if same(request.command.as_str(), "subscribe") {
            LineStep::Subscribe(request.args)
        } else {
            LineStep::Forward(request)
        },
    }
}

/// How a request that was handed on came back.
#[derive(Debug)]
pub enum Forwarded {
    Answered(Response),
    /// No answer came in time.
    TimedOut,
    /// Nobody is there to answer.
    Closed,
}

/// What to answer to a request that was handed on, and whether the connection
/// goes on.
pub fn answer_forwarded(forwarded: Forwarded) -> (r: (Response, bool))
    ensures
        match forwarded {
            Forwarded::Answered(response) => r.0 == response && r.1,
            Forwarded::TimedOut => r.0.says(Reply::Failed("command timed out"@)) && r.1,
            Forwarded::Closed => r.0.says(Reply::Failed("daemon shutting down"@)) && !r.1,
        },
{
    match forwarded {
        Forwarded::Answered(response) => (response, true),
        Forwarded::TimedOut => (Response::err("command timed out"), true),
        Forwarded::Closed => (Response::err("daemon shutting down"), false),
    }
}

} // verus!
