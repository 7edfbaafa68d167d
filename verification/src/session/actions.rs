//! What an action or a movement of the mouse does, and whom to tell.
use vstd::prelude::*;
use crate::ipc::commands::{Host, HostRequest};
use crate::ipc::events::{Notice, WmEvent};
use crate::text::{copy, decimal, number, views};
use crate::wm::input::{Act, Action};
use crate::wm::state::{DragMode, Wm, WmState};
use crate::wm::workspace::WorkspaceTarget;

verus! {

// --- Actions ---

/// A call of the functions of the user's script that wait for an event.
#[derive(Debug)]
pub struct ScriptCall {
    pub event: String,
    pub args: Vec<String>,
}

pub open spec fn opt_call(c: Option<ScriptCall>) -> Option<(Seq<char>, Seq<Seq<char>>)> {
    match c {
        Some(c) => Some((c.event@, views(c.args@))),
        None => None,
    }
}

pub open spec fn opt_notice(e: Option<WmEvent>) -> Option<Notice> {
    match e {
        Some(e) => Some(e@),
        None => None,
    }
}

/// What is left to do once an action is done.
#[derive(Debug)]
pub struct ActionReport {
    pub host: HostRequest,
    pub script: Option<ScriptCall>,
    pub event: Option<WmEvent>,
}

/// The state once an action on windows is done.
#[verifier::opaque]
pub open spec fn acted_on_windows(wm: Wm, action: Act) -> Wm {
    match action {
        Act::CloseWindow => wm.close_asked(),
        Act::Focus(d) => wm.focus_moved(d),
        Act::Swap(d) => wm.swap_moved(d),
        Act::Resize(d) => wm.resize_moved(d),
        Act::Equalize => wm.made_even(),
        Act::ToggleFloat => wm.float_switched(),
        Act::Unstack => wm.restacked(false),
        Act::PromoteStack => wm.restacked(true),
        _ => wm,
    }
}

/// The state once an action on workspaces is done.
#[verifier::opaque]
pub open spec fn acted_on_workspaces(wm: Wm, action: Act) -> Wm {
    match action {
        Act::Workspace(t) => wm.switched(t.id()),
        Act::MoveToWorkspace(t) => wm.moved_to_workspace(t.id()),
        Act::WorkspaceNext => wm.stepped(true),
        Act::WorkspacePrev => wm.stepped(false),
        Act::ToggleSpecial(name) => wm.special_toggled(name),
        Act::MoveToSpecial(name) => wm.moved_to_special(name),
        _ => wm,
    }
}

/// The state once an action on monitors is done.
#[verifier::opaque]
pub open spec fn acted_on_monitors(wm: Wm, action: Act) -> Wm {
    match action {
        Act::FocusMonitorNext => wm.monitor_stepped(true),
        Act::FocusMonitorPrev => wm.monitor_stepped(false),
        Act::MoveToMonitorNext => wm.moved_to_monitor_beside(true),
        Act::MoveToMonitorPrev => wm.moved_to_monitor_beside(false),
        _ => wm,
    }
}

/// The state once an action is done. Each action is of one of the three
/// kinds, or leaves the state alone.
pub open spec fn acted(wm: Wm, action: Act) -> Wm {
    match action {
        Act::Workspace(_)
        | Act::MoveToWorkspace(_)
        | Act::WorkspaceNext
        | Act::WorkspacePrev
        | Act::ToggleSpecial(_)
        | Act::MoveToSpecial(_) => acted_on_workspaces(wm, action),
        Act::FocusMonitorNext
        | Act::FocusMonitorPrev
        | Act::MoveToMonitorNext
        | Act::MoveToMonitorPrev => acted_on_monitors(wm, action),
        _ => acted_on_windows(wm, action),
    }
}

/// Whether doing an action takes a look at the active workspace. What only
/// concerns the program around does not, nor does going to another monitor
/// where there is none.
pub open spec fn action_reads(wm: Wm, action: Act) -> bool {
    match action {
        Act::SpawnTerminal | Act::Reload | Act::Exit => false,
        Act::FocusMonitorNext
        | Act::FocusMonitorPrev
        | Act::MoveToMonitorNext
        | Act::MoveToMonitorPrev => wm.monitors.len() > 1,
        _ => true,
    }
}

/// What an action asks of the program around.
pub open spec fn host_of(action: Act) -> Host {
    match action {
        Act::SpawnTerminal => Host::SpawnTerminal,
        Act::Reload => Host::Reload,
        Act::Exit => Host::Exit,
        _ => Host::Nothing,
    }
}

/// Whether an action makes known which workspace was left for which.
spec fn names_workspace(action: Act) -> bool {
    action is Workspace || action is WorkspaceNext || action is WorkspacePrev
}

/// The event that an action makes known, by the states before and after it.
pub open spec fn notice_of(before: Wm, after: Wm, action: Act) -> Option<Notice> {
    match action {
        Act::Focus(_) => match after.active().focused {
            Some(id) => Some(Notice::WindowFocused { window_id: id, app_name: after.app_of(id) }),
            None => None,
        },
        Act::Workspace(_) | Act::WorkspaceNext | Act::WorkspacePrev => Some(
            Notice::WorkspaceChanged {
                old_id: before.active().id.text(),
                new_id: after.active().id.text(),
            },
        ),
        Act::FocusMonitorNext | Act::FocusMonitorPrev => Some(
            Notice::MonitorChanged { index: after.focused_monitor },
        ),
        _ => None,
    }
}

/// The call of the user's script that goes with an event.
pub open spec fn call_of(notice: Option<Notice>) -> Option<(Seq<char>, Seq<Seq<char>>)> {
    match notice {
        Some(Notice::WindowFocused { window_id, app_name }) => Some(
            ("window_focused"@, seq![decimal(window_id as nat)]),
        ),
        Some(Notice::WorkspaceChanged { old_id, new_id }) => Some(
            ("workspace_changed"@, seq![old_id, new_id]),
        ),
        Some(Notice::MonitorChanged { index }) => Some(
            ("monitor_focused"@, seq![decimal(index as nat)]),
        ),
        _ => None,
    }
}

fn call_for(event: &Option<WmEvent>) -> (r: Option<ScriptCall>)
    ensures
        opt_call(r) == call_of(opt_notice(*event)),
{
    match event {
        Some(WmEvent::WindowFocused { window_id, .. }) => {
            let mut args: Vec<String> = Vec::new();
            args.push(number(*window_id as u64));
            assert(views(args@) =~= seq![decimal(*window_id as nat)]);
            Some(ScriptCall { event: copy("window_focused"), args })
        },
        Some(WmEvent::WorkspaceChanged { old_id, new_id }) => {
            let mut args: Vec<String> = Vec::new();
            args.push(copy(old_id.as_str()));
            args.push(copy(new_id.as_str()));
            assert(views(args@) =~= seq![old_id@, new_id@]);
            Some(ScriptCall { event: copy("workspace_changed"), args })
        },
        Some(WmEvent::MonitorChanged { index }) => {
            let mut args: Vec<String> = Vec::new();
            args.push(number(*index as u64));
            assert(views(args@) =~= seq![decimal(*index as nat)]);
            Some(ScriptCall { event: copy("monitor_focused"), args })
        },
        _ => None,
    }
}

impl WmState {
    fn act_on_windows(&mut self, action: &Action)
        requires
            old(self)@.sound(),
            action_reads(old(self)@, action@) ==> old(self)@.ready(),
        ensures
            final(self)@ == acted_on_windows(old(self)@, action@),
            final(self)@.sound(),
            old(self)@.ready() ==> final(self)@.ready(),
    {
        match action {
            Action::CloseWindow => {
                assert(acted_on_windows(self@, action@) == self@.close_asked()) by {
                    reveal(acted_on_windows);
                }
                self.close_focused();
            },
            Action::Focus(d) => {
                assert(acted_on_windows(self@, action@) == self@.focus_moved(*d)) by {
                    reveal(acted_on_windows);
                }
                self.focus_direction(*d);
            },
            Action::Swap(d) => {
                assert(acted_on_windows(self@, action@) == self@.swap_moved(*d)) by {
                    reveal(acted_on_windows);
                }
                self.swap_direction(*d);
            },
            Action::Resize(d) => {
                assert(acted_on_windows(self@, action@) == self@.resize_moved(*d)) by {
                    reveal(acted_on_windows);
                }
                self.resize_direction(*d);
            },
            Action::Equalize => {
                assert(acted_on_windows(self@, action@) == self@.made_even()) by {
                    reveal(acted_on_windows);
                }
                self.equalize();
            },
            Action::ToggleFloat => {
                assert(acted_on_windows(self@, action@) == self@.float_switched()) by {
                    reveal(acted_on_windows);
                }
                self.toggle_float();
            },
            Action::Unstack => {
                assert(acted_on_windows(self@, action@) == self@.restacked(false)) by {
                    reveal(acted_on_windows);
                }
                self.unstack_focused();
            },
            Action::PromoteStack => {
                assert(acted_on_windows(self@, action@) == self@.restacked(true)) by {
                    reveal(acted_on_windows);
                }
                self.promote_stack_focused();
            },
            _ => {
                assert(acted_on_windows(self@, action@) == self@) by {
                    reveal(acted_on_windows);
                }
            },
        }
    }

    fn act_workspace(&mut self, t: &WorkspaceTarget)
        requires
            old(self)@.ready(),
        ensures
            final(self)@ == acted_on_workspaces(old(self)@, Act::Workspace(*t)),
            final(self)@.ready(),
    {
        proof {
            reveal(acted_on_workspaces);
        }
        self.switch_workspace(t);
    }

    fn act_move_to_workspace(&mut self, t: &WorkspaceTarget)
        requires
            old(self)@.ready(),
        ensures
            final(self)@ == acted_on_workspaces(old(self)@, Act::MoveToWorkspace(*t)),
            final(self)@.ready(),
    {
        proof {
            reveal(acted_on_workspaces);
        }
        self.move_to_workspace(t);
    }

    fn act_workspace_next(&mut self)
        requires
            old(self)@.ready(),
        ensures
            final(self)@ == acted_on_workspaces(old(self)@, Act::WorkspaceNext),
            final(self)@.ready(),
    {
        proof {
            reveal(acted_on_workspaces);
        }
        self.workspace_next();
    }

    fn act_workspace_prev(&mut self)
        requires
            old(self)@.ready(),
        ensures
            final(self)@ == acted_on_workspaces(old(self)@, Act::WorkspacePrev),
            final(self)@.ready(),
    {
        proof {
            reveal(acted_on_workspaces);
        }
        self.workspace_prev();
    }

    fn act_toggle_special(&mut self, name: &str)
        requires
            old(self)@.ready(),
        ensures
            final(self)@ == acted_on_workspaces(old(self)@, Act::ToggleSpecial(name@)),
            final(self)@.ready(),
    {
        proof {
            reveal(acted_on_workspaces);
        }
        self.toggle_special(name);
    }

    fn act_move_to_special(&mut self, name: &str)
        requires
            old(self)@.ready(),
        ensures
            final(self)@ == acted_on_workspaces(old(self)@, Act::MoveToSpecial(name@)),
            final(self)@.ready(),
    {
        proof {
            reveal(acted_on_workspaces);
        }
        self.move_to_special(name);
    }

    fn act_on_workspaces(&mut self, action: &Action)
        requires
            old(self)@.ready(),
        ensures
            final(self)@ == acted_on_workspaces(old(self)@, action@),
            final(self)@.ready(),
    {
        match action {
            Action::Workspace(t) => self.act_workspace(t),
            Action::MoveToWorkspace(t) => self.act_move_to_workspace(t),
            Action::WorkspaceNext => self.act_workspace_next(),
            Action::WorkspacePrev => self.act_workspace_prev(),
            Action::ToggleSpecial(name) => self.act_toggle_special(name.as_str()),
            Action::MoveToSpecial(name) => self.act_move_to_special(name.as_str()),
            _ => {
                assert(acted_on_workspaces(self@, action@) == self@) by {
                    reveal(acted_on_workspaces);
                }
            },
        }
    }

    fn act_on_monitors(&mut self, action: &Action)
        requires
            old(self)@.sound(),
            action_reads(old(self)@, action@) ==> old(self)@.ready(),
        ensures
            final(self)@ == acted_on_monitors(old(self)@, action@),
            final(self)@.sound(),
            old(self)@.ready() ==> final(self)@.ready(),
    {
        match action {
            Action::FocusMonitorNext => {
                assert(acted_on_monitors(self@, action@) == self@.monitor_stepped(true)) by {
                    reveal(acted_on_monitors);
                }
                self.focus_monitor_next();
            },
            Action::FocusMonitorPrev => {
                assert(acted_on_monitors(self@, action@) == self@.monitor_stepped(false)) by {
                    reveal(acted_on_monitors);
                }
                self.focus_monitor_prev();
            },
            Action::MoveToMonitorNext => {
                assert(acted_on_monitors(self@, action@) == self@.moved_to_monitor_beside(true)) by {
                    reveal(acted_on_monitors);
                }
                self.move_to_monitor_next();
            },
            Action::MoveToMonitorPrev => {
                assert(acted_on_monitors(self@, action@) == self@.moved_to_monitor_beside(false)) by {
                    reveal(acted_on_monitors);
                }
                self.move_to_monitor_prev();
            },
            _ => {
                assert(acted_on_monitors(self@, action@) == self@) by {
                    reveal(acted_on_monitors);
                }
            },
        }
    }

    fn act(&mut self, action: &Action)
        requires
            old(self)@.sound(),
            action_reads(old(self)@, action@) ==> old(self)@.ready(),
        ensures
            final(self)@ == acted(old(self)@, action@),
            final(self)@.sound(),
            old(self)@.ready() ==> final(self)@.ready(),
    {
        match action {
            Action::Workspace(_)
            | Action::MoveToWorkspace(_)
            | Action::WorkspaceNext
            | Action::WorkspacePrev
            | Action::ToggleSpecial(_)
            | Action::MoveToSpecial(_) => self.act_on_workspaces(action),
            Action::FocusMonitorNext
            | Action::FocusMonitorPrev
            | Action::MoveToMonitorNext
            | Action::MoveToMonitorPrev => self.act_on_monitors(action),
            _ => self.act_on_windows(action),
        }
    }

    fn event_for(&self, action: &Action, old_id: String, Ghost(before): Ghost<Wm>) -> (r: Option<
        WmEvent,
    >)
        requires
            action@ is Focus || names_workspace(action@) ==> self@.ready(),
            names_workspace(action@) ==> old_id@ == before.active().id.text(),
        ensures
            opt_notice(r) == notice_of(before, self@, action@),
    {
        match action {
            Action::Focus(_) => match self.active_workspace().focused {
                Some(id) => Some(
                    WmEvent::WindowFocused { window_id: id, app_name: self.app_name_of(id) },
                ),
                None => None,
            },
            Action::Workspace(_) | Action::WorkspaceNext | Action::WorkspacePrev => Some(
                WmEvent::WorkspaceChanged {
                    old_id,
                    new_id: self.active_workspace().id.to_string(),
                },
            ),
            Action::FocusMonitorNext | Action::FocusMonitorPrev => Some(
                WmEvent::MonitorChanged { index: self.focused_monitor },
            ),
            _ => None,
        }
    }

    /// Does an action, and reports what the program around it has to do and
    /// whom to tell.
    pub fn handle_action(&mut self, action: &Action) -> (r: ActionReport)
        requires
            old(self)@.sound(),
            action_reads(old(self)@, action@) ==> old(self)@.ready(),
        ensures
            final(self)@ == acted(old(self)@, action@),
            final(self)@.sound(),
            old(self)@.ready() ==> final(self)@.ready(),
            r.host@ == host_of(action@),
            opt_notice(r.event) == notice_of(old(self)@, final(self)@, action@),
            opt_call(r.script) == call_of(notice_of(old(self)@, final(self)@, action@)),
    {
        let old_id = match action {
            Action::Workspace(_) | Action::WorkspaceNext | Action::WorkspacePrev => {
                self.active_workspace().id.to_string()
            },
            _ => String::new(),
        };
        let ghost before = self@;
        self.act(action);
        let event = self.event_for(action, old_id, Ghost(before));
        let script = call_for(&event);
        let host = match action {
            Action::SpawnTerminal => HostRequest::SpawnTerminal,
            Action::Reload => HostRequest::Reload,
            Action::Exit => HostRequest::Exit,
            _ => HostRequest::Nothing,
        };
        ActionReport { host, script, event }
    }
}

// --- The mouse ---

/// What the mouse did, and whether the command key was held with it.
#[derive(Clone, Copy, Debug, PartialEq, Eq, Structural)]
pub enum MouseEvent {
    Click { x: i64, y: i64 },
    Moved { x: i64, y: i64 },
    LeftDown { x: i64, y: i64, cmd_held: bool },
    LeftDragged { x: i64, y: i64 },
    LeftUp { x: i64, y: i64 },
    RightDown { x: i64, y: i64, cmd_held: bool },
    RightDragged { x: i64, y: i64 },
    RightUp { x: i64, y: i64 },
}

/// The state once the mouse did something.
pub open spec fn moused(wm: Wm, event: MouseEvent) -> Wm {
    match event {
        MouseEvent::Click { x, y } => wm.clicked(x as int, y as int),
        MouseEvent::Moved { x, y } => if wm.drag is Some {
            wm.drag_updated(x, y)
        } else {
            wm.mouse_followed(x as int, y as int)
        },
        MouseEvent::LeftDown { x, y, cmd_held } => if cmd_held {
            wm.drag_begun(x, y, DragMode::Move)
        } else {
            wm
        },
        MouseEvent::RightDown { x, y, cmd_held } => if cmd_held {
            wm.drag_begun(x, y, DragMode::Resize)
        } else {
            wm
        },
        MouseEvent::LeftDragged { x, y } | MouseEvent::RightDragged { x, y } => if wm.drag is Some {
            wm.drag_updated(x, y)
        } else {
            wm
        },
        MouseEvent::LeftUp { .. } | MouseEvent::RightUp { .. } => Wm { drag: None, ..wm },
    }
}

/// Whether dealing with the mouse takes a look at the active workspace.
pub open spec fn mouse_reads(wm: Wm, event: MouseEvent) -> bool {
    match event {
        MouseEvent::Click { .. } => true,
        MouseEvent::Moved { .. } => wm.drag is Some || wm.mouse_is_followed(),
        MouseEvent::LeftDown { cmd_held, .. } | MouseEvent::RightDown { cmd_held, .. } => cmd_held,
        MouseEvent::LeftDragged { .. } | MouseEvent::RightDragged { .. } => wm.drag is Some,
        MouseEvent::LeftUp { .. } | MouseEvent::RightUp { .. } => false,
    }
}

impl WmState {
    /// Deals with what the mouse did.
    pub fn handle_mouse(&mut self, event: MouseEvent)
        requires
            old(self)@.sound(),
            mouse_reads(old(self)@, event) ==> old(self)@.ready(),
        ensures
            final(self)@ == moused(old(self)@, event),
            final(self)@.sound(),
            old(self)@.ready() ==> final(self)@.ready(),
    {
        match event {
            MouseEvent::Click { x, y } => self.click_to_focus(x, y),
            MouseEvent::Moved { x, y } => {
                if self.is_dragging() {
                    self.update_drag(x, y);
                } else {
                    self.mouse_moved(x, y);
                }
            },
            MouseEvent::LeftDown { x, y, cmd_held } => {
                if cmd_held {
                    self.begin_move_drag(x, y);
                }
            },
            MouseEvent::RightDown { x, y, cmd_held } => {
                if cmd_held {
                    self.begin_resize_drag(x, y);
                }
            },
            MouseEvent::LeftDragged { x, y } | MouseEvent::RightDragged { x, y } => {
                if self.is_dragging() {
                    self.update_drag(x, y);
                }
            },
            MouseEvent::LeftUp { .. } | MouseEvent::RightUp { .. } => self.end_drag(),
        }
    }
}

} // verus!
