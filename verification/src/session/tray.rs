//! The menu in the menu bar.
use vstd::prelude::*;
use crate::text::{opt_view, trim, trimmed};
use crate::wm::input::{Act, Action};
use crate::wm::state::WmState;
use crate::wm::window::{window_of, Win, WindowId, WindowRegistry};
use crate::wm::workspace::{last_of, Workspace, WorkspaceTarget, Ws};

verus! {

/// The title of the window that a workspace would go back to: the focused one
/// or else the last that was. A window without a title goes by the name of
/// its program.
pub open spec fn active_title(ws: Ws, registry: Seq<Win>) -> Option<Seq<char>> {
    let id = match ws.focused {
        Some(id) => Some(id),
        None => last_of(ws.focus_history),
    };
    match id {
        None => None,
        Some(id) => match window_of(registry, id) {
            None => None,
            Some(w) => if trimmed(w.title).len() > 0 {
                Some(trimmed(w.title))
            } else if trimmed(w.app_name).len() > 0 {
                Some(trimmed(w.app_name))
            } else {
                None
            },
        },
    }
}

pub fn workspace_last_active_title(workspace: &Workspace, registry: &WindowRegistry) -> (r: Option<
    String,
>)
    ensures
        opt_view(r) == active_title(workspace@, registry@),
{
    let id: WindowId = match workspace.focused {
        Some(id) => id,
        None => {
            let n: usize = workspace.focus_history.len();
            if n == 0 {
                return None;
            }
            workspace.focus_history[n - 1]
        },
    };
    match registry.get(id) {
        None => None,
        Some(w) => {
            let title = trim(w.title.as_str());
            if !title.as_str().is_empty() {
                return Some(title);
            }
            let app_name = trim(w.app_name.as_str());
            if !app_name.as_str().is_empty() {
                return Some(app_name);
            }
            None
        },
    }
}

/// A workspace in the menu.
#[derive(Debug)]
pub struct TrayWorkspace {
    pub id: String,
    pub active: bool,
    pub windows: usize,
    pub last_active_title: Option<String>,
    pub switch_target: Option<WorkspaceTarget>,
}

/// A workspace in the menu, as a mathematical value.
pub struct MenuEntry {
    pub id: Seq<char>,
    pub active: bool,
    pub windows: nat,
    pub title: Option<Seq<char>>,
    pub target: Option<WorkspaceTarget>,
}

impl View for TrayWorkspace {
    type V = MenuEntry;

    open spec fn view(&self) -> MenuEntry {
        MenuEntry {
            id: self.id@,
            active: self.active,
            windows: self.windows as nat,
            title: opt_view(self.last_active_title),
            target: self.switch_target,
        }
    }
}

pub open spec fn menu_views(s: Seq<TrayWorkspace>) -> Seq<MenuEntry> {
    Seq::new(s.len(), |i: int| s[i]@)
}

/// The entry of a workspace.
pub open spec fn menu_entry(ws: Ws, registry: Seq<Win>) -> MenuEntry {
    MenuEntry {
        id: ws.id.text(),
        active: ws.visible,
        windows: ws.window_ids().len(),
        title: active_title(ws, registry),
        target: ws.id.target(),
    }
}

/// The entries of workspaces; a special one is there while it has windows.
pub open spec fn menu(workspaces: Seq<Ws>, registry: Seq<Win>) -> Seq<MenuEntry>
    decreases workspaces.len(),
{
    if workspaces.len() == 0 {
        seq![]
    } else {
        let before = menu(workspaces.drop_last(), registry);
        let ws = workspaces.last();
        if ws.id.target() is None && ws.window_ids().len() == 0 {
            before
        } else {
            before.push(menu_entry(ws, registry))
        }
    }
}

impl WmState {
    /// The workspaces in the menu, and the name of the active one.
    pub fn update_tray(&self) -> (r: (Vec<TrayWorkspace>, String))
        requires
            self@.ready(),
        ensures
            menu_views(r.0@) == menu(self@.workspaces, self@.registry),
            r.1@ == self@.active().id.text(),
    {
        let ghost all = self@.workspaces;
        let n: usize = self.workspaces.count();
        let mut list: Vec<TrayWorkspace> = Vec::new();
        let mut i: usize = 0;
        assert(menu_views(list@) =~= menu(all.take(0), self@.registry));
        while i < n
            invariant
                all == self@.workspaces,
                n == all.len(),
                i <= n,
                menu_views(list@) == menu(all.take(i as int), self@.registry),
            decreases n - i,
        {
            let ghost before = menu_views(list@);
            proof {
                assert(all.take(i + 1).drop_last() =~= all.take(i as int));
                assert(all.take(i + 1).last() == all[i as int]);
            }
            let ws = self.workspaces.get(i);
            let target = ws.id.as_regular_target();
            let windows: usize = ws.all_window_ids().len();
            if target.is_some() || windows > 0 {
                let entry = TrayWorkspace {
                    id: ws.id.to_string(),
                    active: ws.visible,
                    windows,
                    last_active_title: workspace_last_active_title(ws, &self.registry),
                    switch_target: target,
                };
                assert(entry@ == menu_entry(ws@, self@.registry));
                list.push(entry);
                assert(menu_views(list@) =~= before.push(entry@));
            }
            i = i + 1;
        }
        assert(all.take(all.len() as int) =~= all);
        (list, self.active_workspace().id.to_string())
    }
}

// --- What is chosen in the menu ---

/// An entry of the menu that was chosen.
#[derive(Clone, Copy, Debug, PartialEq, Eq, Structural)]
pub enum TrayAction {
    SwitchWorkspace(WorkspaceTarget),
    OpenSettings,
    Reload,
    Quit,
}

/// What a chosen entry leads to.
#[derive(Debug)]
pub enum TrayStep {
    Act(Action),
    OpenSettings,
}

/// What a chosen entry leads to, as a mathematical value: an action, or none
/// if the settings window is opened.
pub open spec fn tray_step(action: TrayAction) -> Option<Act> {
    match action {
        TrayAction::SwitchWorkspace(target) => Some(Act::Workspace(target)),
        TrayAction::OpenSettings => None,
        TrayAction::Reload => Some(Act::Reload),
        TrayAction::Quit => Some(Act::Exit),
    }
}

impl View for TrayStep {
    type V = Option<Act>;

    open spec fn view(&self) -> Option<Act> {
        match self {
            TrayStep::Act(action) => Some(action@),
            TrayStep::OpenSettings => None,
        }
    }
}

/// What the chosen entries lead to, in order.
pub fn poll_tray_actions(actions: &Vec<TrayAction>) -> (r: Vec<TrayStep>)
    ensures
        r@.len() == actions@.len(),
        forall|i: int| 0 <= i < r@.len() ==> (#[trigger] r@[i])@ == tray_step(actions@[i]),
{
    let mut steps: Vec<TrayStep> = Vec::new();
    let mut i: usize = 0;
    while i < actions.len()
        invariant
            i <= actions@.len(),
            steps@.len() == i,
            forall|j: int| 0 <= j < i ==> (#[trigger] steps@[j])@ == tray_step(actions@[j]),
        decreases actions.len() - i,
    {
        let step = match actions[i] {
            TrayAction::SwitchWorkspace(target) => TrayStep::Act(Action::Workspace(target)),
            TrayAction::OpenSettings => TrayStep::OpenSettings,
            TrayAction::Reload => TrayStep::Act(Action::Reload),
            TrayAction::Quit => TrayStep::Act(Action::Exit),
        };
        assert(step@ == tray_step(actions@[i as int]));
        steps.push(step);
        i = i + 1;
    }
    steps
}

} // verus!
