//! Work that goes on once the effects before it have been performed.
//!
//! An operation decides what it can and leaves effects to perform and tasks to
//! go on with. Whoever performs the effects measures the windows that a task
//! asks for and resumes, until nothing is left to do.
use vstd::prelude::*;
use crate::wm::effects::Effect;
use crate::wm::oversize::WindowSize;
use crate::wm::state::{task_views, Task, Todo, Wm, WmState};
use crate::wm::window::{knows, WindowId};

verus! {

impl Wm {
    /// A task is done.
    pub open spec fn ran(self, task: Todo, sizes: Seq<WindowSize>) -> Wm {
        match task {
            Todo::FixVisible(job) => self.fix_stepped(job, sizes),
            Todo::FixTarget(job) => self.target_stepped(job, sizes),
            Todo::FinishSwitch { ws_idx } => self.switch_finished(ws_idx),
            Todo::FollowFocus { ws_idx, id } => self.mouse_synced(ws_idx, id),
            Todo::FocusActive => self.focus_active(),
            Todo::Admit { window, again } => if again || !knows(self.registry, window.id) {
                self.admitted(window)
            } else {
                self
            },
            Todo::Handle(event) => self.handled(event),
            Todo::HideUnseen => self.unseen_hidden(),
            Todo::Layout => self.laid_out(),
            Todo::Retile => self.laid_out_twice().fix_started(),
            Todo::Borders => self.bordered(),
        }
    }

    /// Whether doing a task takes a look at the focused monitor.
    pub open spec fn task_reads(self, task: Todo) -> bool {
        match task {
            Todo::FixVisible(job) => self.fix_reads(job),
            Todo::FinishSwitch { .. } | Todo::FocusActive => true,
            Todo::FollowFocus { ws_idx, .. } => self.mouse_follows_focus && self.showing(
                ws_idx,
            ) is None,
            Todo::Admit { window, again } => (again || !knows(self.registry, window.id))
                && window.width > 0 && window.height > 0,
            Todo::Handle(event) => self.event_reads(event),
            _ => false,
        }
    }

    /// Whether doing the first task takes a look at the focused monitor.
    pub open spec fn resuming_reads(self) -> bool {
        self.agenda.len() > 0 && Wm { agenda: seq![], ..self }.task_reads(self.agenda[0])
    }

    /// The first task is done. What it leaves to do comes before the others.
    pub open spec fn resumed(self, sizes: Seq<WindowSize>) -> Wm {
        if self.agenda.len() == 0 {
            self
        } else {
            let s = Wm { agenda: seq![], ..self }.ran(self.agenda[0], sizes);
            Wm { agenda: s.agenda + self.agenda.skip(1), ..s }
        }
    }

    /// The workspace whose windows the first task wants measured.
    pub open spec fn measured_workspace(self) -> Option<usize> {
        if self.agenda.len() == 0 {
            None
        } else {
            match self.agenda[0] {
                Todo::FixVisible(job) => if job.todo.len() > 0 {
                    Some(job.todo[0])
                } else {
                    None
                },
                Todo::FixTarget(job) => Some(job.ws_idx),
                _ => None,
            }
        }
    }
}

impl WmState {
    /// The effects that are to be performed; they are not asked for again.
    pub fn take_effects(&mut self) -> (r: Vec<Effect>)
        ensures
            r@ == old(self)@.effects,
            final(self)@ == (Wm { effects: seq![], ..old(self)@ }),
    {
        let mut out: Vec<Effect> = Vec::new();
        std::mem::swap(&mut out, &mut self.effects);
        assert(self@.effects =~= seq![]);
        out
    }

    /// Whether some task is left.
    pub fn has_tasks(&self) -> (r: bool)
        ensures
            r == (self@.agenda.len() > 0),
    {
        self.agenda.len() > 0
    }

    /// The windows whose sizes the first task needs.
    pub fn windows_to_measure(&self) -> (r: Vec<WindowId>)
        requires
            self@.sound(),
        ensures
            r@ == (match self@.measured_workspace() {
                Some(i) => self@.workspaces[i as int].tree.windows(),
                None => Seq::<WindowId>::empty(),
            }),
    {
        if self.agenda.len() == 0 {
            return Vec::new();
        }
        assert(self@.agenda[0] == self.agenda@[0]@);
        assert(self@.agenda[0].is_within(self@.workspaces.len() as int));
        let ws_idx: usize = match &self.agenda[0] {
            Task::FixVisible(job) => {
                if job.todo.len() == 0 {
                    return Vec::new();
                }
                assert(job@.todo[0] < self@.workspaces.len());
                job.todo[0]
            },
            Task::FixTarget(job) => job.ws_idx,
            _ => {
                return Vec::new();
            },
        };
        self.workspaces.get(ws_idx).tree.windows()
    }

    /// Does a task.
    pub fn run(&mut self, task: Task, sizes: &Vec<WindowSize>)
        requires
            old(self)@.sound(),
            old(self)@.task_reads(task@) ==> old(self)@.ready(),
            task@.is_within(old(self)@.workspaces.len() as int),
        ensures
            final(self)@ == old(self)@.ran(task@, sizes@),
            final(self)@.sound(),
            old(self)@.ready() ==> final(self)@.ready(),
            final(self)@.workspaces.len() >= old(self)@.workspaces.len(),
    {
        match task {
            Task::FixVisible(job) => self.fix_step(job, sizes),
            Task::FixTarget(job) => self.target_step(job, sizes),
            Task::FinishSwitch { ws_idx } => self.finish_switch(ws_idx),
            Task::FollowFocus { ws_idx, id } => self.sync_mouse_after_focus(ws_idx, id),
            Task::FocusActive => self.focus_active_window(),
            Task::Admit { window, again } => {
                if again || !self.registry.contains(window.id) {
                    self.add_window_to_active(&window);
                }
            },
            Task::Handle(event) => self.handle_event(&event),
            Task::HideUnseen => self.enforce_hidden_workspaces(),
            Task::Layout => self.apply_layout(),
            Task::Retile => {
                self.apply_layout_twice();
                self.fix_oversized_windows();
            },
            Task::Borders => self.update_borders(),
        }
    }

    /// Does the first task with the sizes that were measured for it.
    pub fn resume(&mut self, sizes: &Vec<WindowSize>)
        requires
            old(self)@.sound(),
            old(self)@.resuming_reads() ==> old(self)@.ready(),
        ensures
            final(self)@ == old(self)@.resumed(sizes@),
            final(self)@.sound(),
            old(self)@.ready() ==> final(self)@.ready(),
    {
        if self.agenda.len() == 0 {
            return ;
        }
        let ghost before = self@;
        let mut rest: Vec<Task> = Vec::new();
        std::mem::swap(&mut rest, &mut self.agenda);
        let ghost all = task_views(rest@);
        assert(all =~= before.agenda);
        let task = rest.remove(0);
        assert(task_views(rest@) =~= all.skip(1));
        assert(task@ == all[0]);
        assert(self@ =~= (Wm { agenda: seq![], ..before }));
        assert(before.agenda[0].is_within(before.workspaces.len() as int));
        self.run(task, sizes);
        let ghost done = self@;
        let ghost later = task_views(rest@);
        self.agenda.append(&mut rest);
        assert(self@.agenda =~= done.agenda + later);
        assert forall|i: int| 0 <= i < self@.agenda.len() implies (
        #[trigger] self@.agenda[i]).is_within(self@.workspaces.len() as int) by {
            if i < done.agenda.len() {
                assert(done.agenda[i].is_within(done.workspaces.len() as int));
            } else {
                let k = i - done.agenda.len() + 1;
                assert(before.agenda[k].is_within(before.workspaces.len() as int));
            }
        }
    }
}

} // verus!
