//! Giving workspaces to displays as these come and go.
use vstd::prelude::*;
use crate::config::order::{dedup_defs, def_views, ordered_defs, sort_defs, DefOrder};
use crate::seqs::{
    first_where, is_least, least, lemma_first_where_found, lemma_least, lemma_least_none,
};
use crate::wm::effects::{fades_of, warp_effect, warp_to};
use crate::wm::lifecycle::new_views;
use crate::wm::monitor::{
    find_display, find_showing, has_point, index_at_point, is_display, left_to_right, shows,
    sort_left_to_right, Monitor, MonitorId,
};
use crate::wm::state::{NewWin, NewWindow, Task, Todo, Wm, WmState};
use crate::wm::workspace::{grown, law_growing_keeps_workspaces, WorkspaceDefinition, Ws, WsDef};

verus! {

/// Tells workspaces that no monitor of a list has.
pub open spec fn is_free(given: Seq<Option<usize>>) -> spec_fn(int) -> bool {
    |i: int| !given.contains(Some(i as usize))
}

/// The first workspace that no monitor has.
pub open spec fn free_workspace(given: Seq<Option<usize>>) -> usize {
    least((given.len() + 1) as int, is_free(given))->0 as usize
}

/// Monitors without a workspace get free ones, from left to right.
pub open spec fn filled(given: Seq<Option<usize>>, n: int) -> Seq<Option<usize>>
    decreases n,
{
    if n <= 0 {
        given
    } else {
        let before = filled(given, n - 1);
        if before[n - 1] is None {
            before.update(n - 1, Some(free_workspace(before)))
        } else {
            before
        }
    }
}

/// The set of the first `k` workspaces.
spec fn first_few(k: nat) -> Set<Option<usize>>
    decreases k,
{
    if k == 0 {
        Set::empty()
    } else {
        first_few((k - 1) as nat).insert(Some((k - 1) as usize))
    }
}

proof fn lemma_first_few(k: nat)
    requires
        k <= usize::MAX,
    ensures
        first_few(k).finite(),
        first_few(k).len() == k,
        forall|x: Option<usize>|
            #[trigger] first_few(k).contains(x) <==> x is Some && (x->0 as int) < k,
    decreases k,
{
    broadcast use vstd::set::group_set_axioms;

    if k > 0 {
        lemma_first_few((k - 1) as nat);
    }
}

/// A list cannot hold more workspaces than it has places.
proof fn lemma_pigeonhole(given: Seq<Option<usize>>, k: nat)
    requires
        k <= usize::MAX,
        forall|j: int| 0 <= j < k ==> #[trigger] given.contains(Some(j as usize)),
    ensures
        k <= given.len(),
{
    broadcast use vstd::seq_lib::seq_to_set_is_finite;

    lemma_first_few(k);
    given.lemma_cardinality_of_set();
    assert(first_few(k).subset_of(given.to_set())) by {
        assert forall|x: Option<usize>| first_few(k).contains(x) implies given.to_set().contains(
            x,
        ) by {
            assert(given.contains(Some((x->0 as int) as usize)));
        }
    }
    vstd::set_lib::lemma_len_subset(first_few(k), given.to_set());
}

fn holds(given: &Vec<Option<usize>>, x: usize) -> (r: bool)
    ensures
        r == given@.contains(Some(x)),
{
    let mut i: usize = 0;
    while i < given.len()
        invariant
            i <= given@.len(),
            forall|j: int| 0 <= j < i ==> given@[j] != Some(x),
        decreases given.len() - i,
    {
        if let Some(y) = given[i] {
            if y == x {
                return true;
            }
        }
        i = i + 1;
    }
    false
}

fn find_free(given: &Vec<Option<usize>>) -> (r: usize)
    requires
        given@.len() < usize::MAX,
    ensures
        r == free_workspace(given@),
        r <= given@.len(),
{
    let ghost p = is_free(given@);
    let n: usize = given.len();
    let mut i: usize = 0;
    while i <= n
        invariant
            n == given@.len(),
            n < usize::MAX,
            i <= n + 1,
            p == is_free(given@),
            forall|j: int| 0 <= j < i ==> !#[trigger] p(j),
        decreases n + 1 - i,
    {
        if !holds(given, i) {
            proof {
                assert(p(i as int));
                lemma_least(n + 1, p, i as int);
            }
            return i;
        }
        assert(!p(i as int));
        i = i + 1;
    }
    proof {
        assert forall|j: int| 0 <= j < n + 1 implies #[trigger] given@.contains(
            Some(j as usize),
        ) by {
            assert(!p(j));
        }
        lemma_pigeonhole(given@, (n + 1) as nat);
    }
    0
}

/// Displays on their way to become the monitors.
pub struct Plug {
    pub wm: Wm,
    pub monitors: Seq<Monitor>,
}

pub open spec fn plug_of(wm: Wm, monitors: Seq<Monitor>) -> Plug {
    Plug { wm, monitors }
}

impl Plug {
    /// A display becomes the next monitor and shows a workspace.
    pub open spec fn plugged(self, display: Monitor, ws_idx: usize) -> Plug {
        Plug {
            wm: self.wm.with_ws(
                ws_idx,
                Ws {
                    last_monitor: Some(self.monitors.len() as usize),
                    last_display_id: Some(display.id),
                    ..self.wm.workspaces[ws_idx as int]
                },
            ),
            monitors: self.monitors.push(Monitor { active_workspace: ws_idx, ..display }),
        }
    }

    /// Whether a workspace can be given to a new display: neither an old nor a
    /// new monitor shows it.
    pub open spec fn is_idle(self, i: int) -> bool {
        first_where(self.monitors, shows(i as usize)) is None && !self.wm.is_visible(i as usize)
    }

    /// The display that a workspace prefers.
    pub open spec fn wish_of(self, i: int) -> Option<MonitorId> {
        match self.wm.prefs_of(i as usize) {
            Some(prefs) => match prefs.monitor {
                Some(m) => Some(m.display_id),
                None => None,
            },
            None => None,
        }
    }

    /// Tells idle workspaces that prefer a display.
    pub open spec fn wishes_for(self, id: MonitorId) -> spec_fn(int) -> bool {
        |i: int| self.is_idle(i) && self.wish_of(i) == Some(id)
    }

    /// Tells idle workspaces that a display showed last.
    pub open spec fn was_on(self, id: MonitorId) -> spec_fn(int) -> bool {
        |i: int| self.is_idle(i) && self.wm.workspaces[i].last_display_id == Some(id)
    }

    /// Tells idle workspaces that prefer no display.
    pub open spec fn wishes_nothing(self) -> spec_fn(int) -> bool {
        |i: int| self.is_idle(i) && self.wish_of(i) is None
    }

    /// Tells idle workspaces.
    pub open spec fn idle(self) -> spec_fn(int) -> bool {
        |i: int| self.is_idle(i)
    }

    /// The workspace that a new display gets: one that prefers it, or that it
    /// showed last, or that prefers no display, or any other idle one, or else
    /// a new one.
    pub open spec fn choice_for(self, id: MonitorId) -> usize {
        let n = self.wm.workspaces.len() as int;
        let a = least(n, self.wishes_for(id));
        let b = least(n, self.was_on(id));
        let c = least(n, self.wishes_nothing());
        let d = least(n, self.idle());
        (if a is Some {
            a->0
        } else if b is Some {
            b->0
        } else if c is Some {
            c->0
        } else if d is Some {
            d->0
        } else {
            n
        }) as usize
    }

    /// A new display becomes a monitor.
    pub open spec fn attached(self, display: Monitor) -> Plug {
        let idx = self.choice_for(display.id);
        Plug {
            wm: Wm { workspaces: grown(self.wm.workspaces, idx + 1), ..self.wm },
            ..self
        }.plugged(display, idx)
    }

    /// The new ones among the first `n` displays become monitors.
    pub open spec fn all_attached(self, displays: Seq<Monitor>, n: int) -> Plug
        decreases n,
    {
        if n <= 0 {
            self
        } else {
            let before = self.all_attached(displays, n - 1);
            if first_where(before.monitors, is_display(displays[n - 1].id)) is Some {
                before
            } else {
                before.attached(displays[n - 1])
            }
        }
    }

    /// The monitors of the first `n` old displays that are gone: their windows
    /// are made transparent, and their workspaces have no monitor.
    pub open spec fn all_orphaned(self, displays: Seq<Monitor>, n: int) -> Plug
        decreases n,
    {
        if n <= 0 {
            self
        } else {
            let before = self.all_orphaned(displays, n - 1);
            let id = self.wm.monitors[n - 1].id;
            if first_where(displays, is_display(id)) is Some {
                before
            } else {
                let k = first_where(self.wm.monitors, is_display(id))->0;
                let idx = self.wm.monitors[k].active_workspace;
                let ws = before.wm.workspaces[idx as int];
                Plug {
                    wm: before.wm.did(fades_of(ws.window_ids())).with_ws(
                        idx,
                        Ws { last_monitor: None, ..ws },
                    ),
                    ..before
                }
            }
        }
    }

    /// Everything that a plug needs to become the state.
    pub open spec fn sound(self) -> bool {
        &&& self.wm.sound()
        &&& self.monitors.len() <= usize::MAX
        &&& forall|i: int|
            0 <= i < self.monitors.len() ==> (#[trigger] self.monitors[i]).active_workspace
                < self.wm.workspaces.len()
    }
}

impl Wm {
    /// The workspaces of the first `n` definitions exist.
    pub open spec fn defined_upto(self, n: int) -> Wm
        decreases n,
    {
        if n <= 0 {
            self
        } else {
            self.defined_upto(n - 1).with_workspace(self.defs[n - 1].id)
        }
    }

    /// Every defined workspace exists.
    pub open spec fn defined(self) -> Wm {
        self.defined_upto(self.defs.len() as int)
    }

    /// Other definitions hold from now on.
    pub open spec fn redefined(self, defs: Seq<WsDef>) -> Wm {
        Wm { defs: ordered_defs(defs, DefOrder::Name), ..self }.defined()
    }

    /// The monitors that the first `n` workspaces get because they prefer them.
    pub open spec fn claims(self, n: int) -> Seq<Option<usize>>
        decreases n,
    {
        if n <= 0 {
            Seq::new(self.monitors.len(), |i: int| None)
        } else {
            let before = self.claims(n - 1);
            match self.preferred_monitor((n - 1) as usize) {
                Some(mi) if before[mi as int] is None => before.update(
                    mi as int,
                    Some((n - 1) as usize),
                ),
                _ => before,
            }
        }
    }

    /// The workspace of each monitor at the start: those that prefer it come
    /// first, the first workspace goes to the focused monitor, and what is left
    /// is filled in order.
    pub open spec fn assignments(self) -> Seq<Option<usize>> {
        let claimed = self.claims(self.workspaces.len() as int);
        let mi = self.focused_monitor as int;
        filled(
            if claimed[mi] is None {
                claimed.update(mi, Some(0usize))
            } else {
                claimed
            },
            self.monitors.len() as int,
        )
    }

    /// The first `n` monitors show the workspaces that they were given.
    pub open spec fn assigned_upto(self, given: Seq<Option<usize>>, n: int) -> Wm
        decreases n,
    {
        if n <= 0 {
            self
        } else {
            let before = self.assigned_upto(given, n - 1);
            let idx = given[n - 1]->0;
            let room = grown(before.workspaces, idx + 1);
            Wm {
                monitors: before.monitors.update(
                    n - 1,
                    Monitor { active_workspace: idx, ..before.monitors[n - 1] },
                ),
                workspaces: room.update(
                    idx as int,
                    Ws {
                        last_monitor: Some((n - 1) as usize),
                        last_display_id: Some(before.monitors[n - 1].id),
                        ..room[idx as int]
                    },
                ),
                ..before
            }
        }
    }

    /// The start: the displays become monitors, the one under the mouse has the
    /// focus, each shows a workspace, and the windows are taken in.
    pub open spec fn discovered(
        self,
        displays: Seq<Monitor>,
        x: int,
        y: int,
        windows: Seq<NewWin>,
    ) -> Wm {
        let monitors = left_to_right(displays);
        let s = Wm {
            monitors,
            focused_monitor: match first_where(monitors, has_point(x, y)) {
                Some(i) => i as usize,
                None => 0,
            },
            ..self.defined()
        };
        s.assigned_upto(s.assignments(), s.monitors.len() as int).visibility_synced(
        ).admissions_queued(windows, true).later(Todo::Retile).later(Todo::Borders)
    }

    /// Those of the first `n` displays that were monitors before stay with
    /// their workspaces.
    pub open spec fn survivors(self, displays: Seq<Monitor>, n: int) -> Plug
        decreases n,
    {
        if n <= 0 {
            Plug { wm: self, monitors: seq![] }
        } else {
            let before = self.survivors(displays, n - 1);
            match first_where(self.monitors, is_display(displays[n - 1].id)) {
                Some(k) => before.plugged(displays[n - 1], self.monitors[k].active_workspace),
                None => before,
            }
        }
    }

    /// The overlays of the old monitors on the new ones.
    pub open spec fn specials_for(self, monitors: Seq<Monitor>) -> Seq<Option<usize>> {
        Seq::new(
            monitors.len(),
            |i: int|
                match first_where(self.monitors, is_display(monitors[i].id)) {
                    Some(k) => self.special_on(k as usize),
                    None => None,
                },
        )
    }

    /// The focus stays on its display, or goes to the first monitor if that is
    /// gone.
    pub open spec fn focus_kept(self, display: Option<MonitorId>) -> Wm {
        match display {
            Some(id) => match first_where(self.monitors, is_display(id)) {
                Some(k) => Wm { focused_monitor: k as usize, ..self },
                None => {
                    let s = Wm { focused_monitor: 0, hovered: None, cooldown: None, ..self };
                    let focused = s.focus_active();
                    focused.did(seq![warp_to(focused.rect_on(0))])
                },
            },
            None => if self.focused_monitor >= self.monitors.len() {
                Wm { focused_monitor: 0, ..self }
            } else {
                self
            },
        }
    }

    /// Displays were connected or taken away: those that stay keep their
    /// workspaces, the windows of those that are gone disappear, and new ones
    /// get idle workspaces.
    pub open spec fn replugged(self, displays: Seq<Monitor>) -> Wm {
        let all = left_to_right(displays);
        let n = all.len() as int;
        let plug = self.survivors(all, n).all_orphaned(
            all,
            self.monitors.len() as int,
        ).all_attached(all, n);
        let display = if self.focused_monitor < self.monitors.len() {
            Some(self.monitors[self.focused_monitor as int].id)
        } else {
            None
        };
        Wm {
            monitors: plug.monitors,
            specials: self.specials_for(plug.monitors),
            ..plug.wm
        }.visibility_synced().focus_kept(display).laid_out_twice().fix_started()
    }
}

/// What is given stays given, and nothing but workspaces within reach is.
proof fn lemma_filled(given: Seq<Option<usize>>, n: int, bound: int)
    requires
        0 <= n <= given.len(),
        given.len() < usize::MAX,
        given.len() <= bound,
        forall|i: int| 0 <= i < given.len() ==> ((#[trigger] given[i]) is Some ==> given[i]->0 <= bound),
    ensures
        filled(given, n).len() == given.len(),
        forall|i: int|
            0 <= i < given.len() ==> ((#[trigger] filled(given, n)[i]) is Some ==> filled(given, n)[i]->0
                <= bound),
        forall|i: int| 0 <= i < n ==> (#[trigger] filled(given, n)[i]) is Some,
    decreases n,
{
    if n > 0 {
        lemma_filled(given, n - 1, bound);
        lemma_free_exists(filled(given, n - 1));
    }
}

/// Some workspace is always free.
proof fn lemma_free_exists(given: Seq<Option<usize>>)
    requires
        given.len() < usize::MAX,
    ensures
        free_workspace(given) <= given.len(),
{
    let n = (given.len() + 1) as int;
    let p = is_free(given);
    lemma_least_exists(n, p, 0, given);
}

proof fn lemma_least_exists(n: int, p: spec_fn(int) -> bool, k: int, given: Seq<Option<usize>>)
    requires
        given.len() < usize::MAX,
        n == given.len() + 1,
        p == is_free(given),
        0 <= k <= n,
        forall|j: int| 0 <= j < k ==> !#[trigger] p(j),
    ensures
        least(n, p) is Some,
        0 <= least(n, p)->0 < n,
    decreases n - k,
{
    if k == n {
        assert forall|j: int| 0 <= j < n implies #[trigger] given.contains(Some(j as usize)) by {
            assert(!p(j));
        }
        lemma_pigeonhole(given, n as nat);
    } else if p(k) {
        lemma_least(n, p, k);
    } else {
        lemma_least_exists(n, p, k + 1, given);
    }
}

fn fill(given: Vec<Option<usize>>) -> (r: Vec<Option<usize>>)
    requires
        given@.len() < usize::MAX,
    ensures
        r@ == filled(given@, given@.len() as int),
{
    let ghost start = given@;
    let mut given = given;
    let n: usize = given.len();
    let mut i: usize = 0;
    while i < n
        invariant
            n == start.len(),
            n < usize::MAX,
            i <= n,
            given@.len() == n,
            given@ == filled(start, i as int),
        decreases n - i,
    {
        if given[i].is_none() {
            let free: usize = find_free(&given);
            given[i] = Some(free);
        }
        i = i + 1;
    }
    given
}

impl WmState {
    /// Creates every workspace that is defined.
    pub fn ensure_defined_workspaces(&mut self)
        requires
            old(self)@.sound(),
        ensures
            final(self)@ == old(self)@.defined(),
            final(self)@.sound(),
            old(self)@.ready() ==> final(self)@.ready(),
    {
        let ghost before = self@;
        let n: usize = self.workspace_defs.len();
        let mut i: usize = 0;
        while i < n
            invariant
                n == before.defs.len(),
                i <= n,
                self@.defs == before.defs,
                self@ == before.defined_upto(i as int),
                self@.sound(),
                before.ready() ==> self@.ready(),
            decreases n - i,
        {
            assert(before.defs[i as int] == self.workspace_defs@[i as int]@);
            let id = self.workspace_defs[i].id.clone();
            let _ = self.ensure_workspace(id);
            i = i + 1;
        }
    }

    /// Takes other definitions of workspaces over.
    pub fn set_workspace_defs(&mut self, defs: Vec<WorkspaceDefinition>)
        requires
            old(self)@.sound(),
        ensures
            final(self)@ == old(self)@.redefined(def_views(defs@)),
            final(self)@.sound(),
            old(self)@.ready() ==> final(self)@.ready(),
    {
        self.workspace_defs = dedup_defs(sort_defs(defs, DefOrder::Name));
        self.ensure_defined_workspaces();
    }

    fn claim_monitors(&self) -> (r: Vec<Option<usize>>)
        ensures
            r@ == self@.claims(self@.workspaces.len() as int),
            r@.len() == self@.monitors.len(),
    {
        let mut given: Vec<Option<usize>> = Vec::new();
        while given.len() < self.monitors.len()
            invariant
                given@.len() <= self.monitors@.len(),
                forall|i: int| 0 <= i < given@.len() ==> given@[i] is None,
            decreases self.monitors.len() - given.len(),
        {
            given.push(None);
        }
        assert(given@ =~= self@.claims(0));
        let n: usize = self.workspaces.count();
        let mut i: usize = 0;
        while i < n
            invariant
                n == self@.workspaces.len(),
                i <= n,
                given@.len() == self@.monitors.len(),
                given@ == self@.claims(i as int),
            decreases n - i,
        {
            if let Some(mi) = self.preferred_monitor_for_workspace(i) {
                if given[mi].is_none() {
                    given[mi] = Some(i);
                }
            }
            i = i + 1;
        }
        given
    }

    fn assign(&mut self, given: &Vec<Option<usize>>)
        requires
            old(self)@.workspaces.len() <= usize::MAX,
            given@.len() == old(self)@.monitors.len(),
            forall|i: int|
                0 <= i < given@.len() ==> (#[trigger] given@[i]) is Some && given@[i]->0
                    < usize::MAX,
        ensures
            final(self)@ == old(self)@.assigned_upto(given@, given@.len() as int),
            final(self)@.workspaces.len() >= old(self)@.workspaces.len(),
            final(self)@.workspaces.len() <= usize::MAX,
            final(self)@.monitors.len() == old(self)@.monitors.len(),
            forall|i: int|
                0 <= i < given@.len() ==> (#[trigger] final(self)@.monitors[i]).active_workspace
                    < final(self)@.workspaces.len(),
    {
        let ghost before = self@;
        let mut mi: usize = 0;
        while mi < given.len()
            invariant
                mi <= given@.len(),
                given@.len() == before.monitors.len(),
                forall|i: int|
                    0 <= i < given@.len() ==> (#[trigger] given@[i]) is Some && given@[i]->0
                        < usize::MAX,
                self@ == before.assigned_upto(given@, mi as int),
                self@.monitors.len() == before.monitors.len(),
                before.workspaces.len() <= self@.workspaces.len() <= usize::MAX,
                forall|i: int|
                    0 <= i < mi ==> (#[trigger] self@.monitors[i]).active_workspace
                        < self@.workspaces.len(),
            decreases given.len() - mi,
        {
            let idx: usize = match given[mi] {
                Some(i) => i,
                None => 0,
            };
            let ghost mid = self@;
            proof {
                law_growing_keeps_workspaces(mid.workspaces, idx + 1);
            }
            let mut m: Monitor = self.monitors[mi];
            m.active_workspace = idx;
            self.monitors[mi] = m;
            let ws = self.workspaces.get_or_create(idx);
            ws.last_monitor = Some(mi);
            ws.last_display_id = Some(m.id);
            let _n: usize = self.workspaces.count();
            mi = mi + 1;
        }
    }

    /// Makes monitors of displays, gives each a workspace, and lets the windows
    /// wait to be taken in.
    pub fn discover_and_observe(
        &mut self,
        displays: &Vec<Monitor>,
        cursor_x: i64,
        cursor_y: i64,
        windows: Vec<NewWindow>,
    )
        requires
            0 < displays@.len() < usize::MAX,
            old(self)@.sound(),
            old(self)@.specials.len() <= displays@.len(),
        ensures
            final(self)@ == old(self)@.discovered(
                displays@,
                cursor_x as int,
                cursor_y as int,
                new_views(windows@),
            ),
            final(self)@.ready(),
    {
        self.ensure_defined_workspaces();
        let ghost defined = self@;
        self.monitors = sort_left_to_right(displays);
        let mi: usize = match index_at_point(&self.monitors, cursor_x, cursor_y) {
            Some(i) => i,
            None => 0,
        };
        self.focused_monitor = mi;
        let ghost s = self@;
        let mut given = self.claim_monitors();
        proof {
            lemma_claims(s, s.workspaces.len() as int);
        }
        if given[mi].is_none() {
            given[mi] = Some(0);
        }
        proof {
            lemma_filled(given@, given@.len() as int, usize::MAX - 1);
        }
        let given = fill(given);
        self.assign(&given);
        self.sync_workspace_visibility();
        proof {
            lemma_assigned_frame(s, given@, given@.len() as int);
            lemma_defined_frame(old(self)@, old(self)@.defs.len() as int);
            assert forall|i: int|
                0 <= i < self@.specials.len() && (
                #[trigger] self@.specials[i]) is Some implies self@.specials[i]->0
                < self@.workspaces.len() by {
                assert(defined.specials[i] == self@.specials[i]);
            }
            assert forall|i: int| 0 <= i < self@.agenda.len() implies (
            #[trigger] self@.agenda[i]).is_within(self@.workspaces.len() as int) by {
                assert(defined.agenda[i].is_within(defined.workspaces.len() as int));
            }
        }
        self.queue_admissions(windows, true);
        self.add_task(Task::Retile);
        self.add_task(Task::Borders);
    }
}

impl WmState {
    /// Makes a display the next monitor.
    fn plug_in(&mut self, monitors: &mut Vec<Monitor>, display: &Monitor, ws_idx: usize)
        requires
            ws_idx < old(self)@.workspaces.len(),
            plug_of(old(self)@, old(monitors)@).sound(),
            old(monitors)@.len() < usize::MAX,
        ensures
            plug_of(final(self)@, final(monitors)@) == plug_of(old(self)@, old(monitors)@).plugged(*display, ws_idx),
            plug_of(final(self)@, final(monitors)@).sound(),
    {
        let n: usize = monitors.len();
        let ws = self.workspaces.get_mut(ws_idx);
        ws.last_monitor = Some(n);
        ws.last_display_id = Some(display.id);
        let mut m: Monitor = *display;
        m.active_workspace = ws_idx;
        monitors.push(m);
    }

    fn keep_survivors(&mut self, displays: &Vec<Monitor>) -> (r: Vec<Monitor>)
        requires
            old(self)@.sound(),
        ensures
            plug_of(final(self)@, r@) == old(self)@.survivors(
                displays@,
                displays@.len() as int,
            ),
            plug_of(final(self)@, r@).sound(),
            r@.len() <= displays@.len(),
            final(self)@.monitors == old(self)@.monitors,
            final(self)@.specials == old(self)@.specials,
            final(self)@.workspaces.len() == old(self)@.workspaces.len(),
    {
        let ghost before = self@;
        let mut monitors: Vec<Monitor> = Vec::new();
        let mut i: usize = 0;
        assert(monitors@ =~= seq![]);
        while i < displays.len()
            invariant
                before.sound(),
                i <= displays@.len(),
                plug_of(self@, monitors@) == before.survivors(
                    displays@,
                    i as int,
                ),
                plug_of(self@, monitors@).sound(),
                monitors@.len() <= i,
                self@.monitors == before.monitors,
                self@.specials == before.specials,
                self@.workspaces.len() == before.workspaces.len(),
            decreases displays.len() - i,
        {
            let d: Monitor = displays[i];
            if let Some(k) = find_display(&self.monitors, d.id) {
                let ws_idx: usize = self.monitors[k].active_workspace;
                self.plug_in(&mut monitors, &d, ws_idx);
            }
            i = i + 1;
        }
        monitors
    }

    fn hide_orphans(&mut self, displays: &Vec<Monitor>, kept: &Vec<Monitor>)
        requires
            plug_of(old(self)@, kept@).sound(),
        ensures
            plug_of(final(self)@, kept@) == plug_of(old(self)@, kept@).all_orphaned(displays@, old(self)@.monitors.len() as int),
            plug_of(final(self)@, kept@).sound(),
            final(self)@.monitors == old(self)@.monitors,
            final(self)@.specials == old(self)@.specials,
            final(self)@.workspaces.len() == old(self)@.workspaces.len(),
    {
        let ghost before = plug_of(self@, kept@);
        let mut i: usize = 0;
        while i < self.monitors.len()
            invariant
                before.sound(),
                before.monitors == kept@,
                i <= before.wm.monitors.len(),
                plug_of(self@, kept@) == before.all_orphaned(
                    displays@,
                    i as int,
                ),
                plug_of(self@, kept@).sound(),
                self@.monitors == before.wm.monitors,
                self@.specials == before.wm.specials,
                self@.workspaces.len() == before.wm.workspaces.len(),
            decreases before.wm.monitors.len() - i,
        {
            let id: MonitorId = self.monitors[i].id;
            if find_display(displays, id).is_none() {
                proof {
                    lemma_first_where_found(self@.monitors, is_display(id));
                }
                if let Some(k) = find_display(&self.monitors, id) {
                    let ws_idx: usize = self.monitors[k].active_workspace;
                    self.hide_workspace_windows_immediate(ws_idx);
                    self.workspaces.get_mut(ws_idx).last_monitor = None;
                }
            }
            i = i + 1;
        }
    }

    fn is_idle(&self, monitors: &Vec<Monitor>, ws_idx: usize) -> (r: bool)
        ensures
            r == plug_of(self@, monitors@).is_idle(ws_idx as int),
    {
        find_showing(monitors, ws_idx).is_none() && !self.workspace_is_effectively_visible(ws_idx)
    }

    fn wish_of(&self, ws_idx: usize) -> (r: Option<MonitorId>)
        requires
            ws_idx < self@.workspaces.len(),
        ensures
            forall|monitors: Seq<Monitor>|
                r == #[trigger] plug_of(self@, monitors).wish_of(ws_idx as int),
    {
        match self.workspace_prefs(ws_idx) {
            Some(prefs) => match prefs.monitor {
                Some(m) => Some(m.display_id),
                None => None,
            },
            None => None,
        }
    }

    fn choose_workspace(&self, monitors: &Vec<Monitor>, id: MonitorId) -> (r: usize)
        requires
            self@.sound(),
        ensures
            r == plug_of(self@, monitors@).choice_for(id),
            r <= self@.workspaces.len(),
    {
        let ghost plug = plug_of(self@, monitors@);
        let n: usize = self.workspaces.count();
        let ghost p = plug.wishes_for(id);
        let ghost q = plug.was_on(id);
        let ghost u = plug.wishes_nothing();
        let ghost v = plug.idle();
        let mut b: Option<usize> = None;
        let mut c: Option<usize> = None;
        let mut d: Option<usize> = None;
        let mut i: usize = 0;
        while i < n
            invariant
                plug == plug_of(self@, monitors@),
                n == self@.workspaces.len(),
                i <= n,
                p == plug.wishes_for(id),
                q == plug.was_on(id),
                u == plug.wishes_nothing(),
                v == plug.idle(),
                forall|j: int| 0 <= j < i ==> !#[trigger] p(j),
                match b {
                    Some(k) => is_least(n as int, q, k as int) && k < i,
                    None => forall|j: int| 0 <= j < i ==> !#[trigger] q(j),
                },
                match c {
                    Some(k) => is_least(n as int, u, k as int) && k < i,
                    None => forall|j: int| 0 <= j < i ==> !#[trigger] u(j),
                },
                match d {
                    Some(k) => is_least(n as int, v, k as int) && k < i,
                    None => forall|j: int| 0 <= j < i ==> !#[trigger] v(j),
                },
            decreases n - i,
        {
            if self.is_idle(monitors, i) {
                let wish = self.wish_of(i);
                assert(wish == plug.wish_of(i as int));
                let wished: bool = match wish {
                    Some(w) => w == id,
                    None => false,
                };
                if wished {
                    proof {
                        lemma_least(n as int, p, i as int);
                    }
                    return i;
                }
                let known: bool = match self.workspaces.get(i).last_display_id {
                    Some(x) => x == id,
                    None => false,
                };
                if known && b.is_none() {
                    b = Some(i);
                }
                if wish.is_none() && c.is_none() {
                    c = Some(i);
                }
                if d.is_none() {
                    d = Some(i);
                }
            }
            i = i + 1;
        }
        proof {
            lemma_least_none(n as int, p);
            match b {
                Some(k) => lemma_least(n as int, q, k as int),
                None => lemma_least_none(n as int, q),
            }
            match c {
                Some(k) => lemma_least(n as int, u, k as int),
                None => lemma_least_none(n as int, u),
            }
            match d {
                Some(k) => lemma_least(n as int, v, k as int),
                None => lemma_least_none(n as int, v),
            }
        }
        if let Some(k) = b {
            return k;
        }
        if let Some(k) = c {
            return k;
        }
        if let Some(k) = d {
            return k;
        }
        n
    }

    fn attach(&mut self, monitors: &mut Vec<Monitor>, display: &Monitor)
        requires
            plug_of(old(self)@, old(monitors)@).sound(),
            old(monitors)@.len() < usize::MAX,
            old(self)@.workspaces.len() < usize::MAX,
        ensures
            plug_of(final(self)@, final(monitors)@) == plug_of(old(self)@, old(monitors)@).attached(*display),
            plug_of(final(self)@, final(monitors)@).sound(),
            final(self)@.workspaces.len() <= old(self)@.workspaces.len() + 1,
    {
        let idx: usize = self.choose_workspace(monitors, display.id);
        let ghost before = self@;
        proof {
            law_growing_keeps_workspaces(before.workspaces, idx + 1);
        }
        let _ = self.workspaces.get_or_create(idx);
        proof {
            let room = grown(before.workspaces, idx + 1);
            assert(room.update(idx as int, room[idx as int]) =~= room);
            assert(self@.workspaces =~= room);
            assert forall|i: int| 0 <= i < self@.agenda.len() implies (
            #[trigger] self@.agenda[i]).is_within(self@.workspaces.len() as int) by {
                assert(before.agenda[i].is_within(before.workspaces.len() as int));
            }
        }
        self.plug_in(monitors, display, idx);
    }

    fn attach_new(&mut self, monitors: &mut Vec<Monitor>, displays: &Vec<Monitor>)
        requires
            plug_of(old(self)@, old(monitors)@).sound(),
            old(monitors)@.len() + displays@.len() < usize::MAX,
            old(self)@.workspaces.len() + displays@.len() < usize::MAX,
        ensures
            plug_of(final(self)@, final(monitors)@) == plug_of(
                old(self)@,
                old(monitors)@,
            ).all_attached(displays@, displays@.len() as int),
            plug_of(final(self)@, final(monitors)@).sound(),
            displays@.len() > 0 ==> final(monitors)@.len() > 0,
            final(self)@.monitors == old(self)@.monitors,
            final(self)@.specials == old(self)@.specials,
    {
        let ghost before = plug_of(self@, monitors@);
        let mut i: usize = 0;
        while i < displays.len()
            invariant
                i <= displays@.len(),
                plug_of(self@, monitors@) == before.all_attached(displays@, i as int),
                plug_of(self@, monitors@).sound(),
                monitors@.len() <= before.monitors.len() + i,
                i > 0 ==> monitors@.len() > 0,
                self@.monitors == before.wm.monitors,
                self@.specials == before.wm.specials,
                self@.workspaces.len() <= before.wm.workspaces.len() + i,
                before.monitors.len() + displays@.len() < usize::MAX,
                before.wm.workspaces.len() + displays@.len() < usize::MAX,
            decreases displays.len() - i,
        {
            let d: Monitor = displays[i];
            if find_display(monitors, d.id).is_none() {
                self.attach(monitors, &d);
            }
            i = i + 1;
        }
    }

    fn remap_specials(&self, monitors: &Vec<Monitor>) -> (r: Vec<Option<usize>>)
        ensures
            r@ == self@.specials_for(monitors@),
    {
        let mut specials: Vec<Option<usize>> = Vec::new();
        let mut i: usize = 0;
        while i < monitors.len()
            invariant
                i <= monitors@.len(),
                specials@ == self@.specials_for(monitors@).take(i as int),
            decreases monitors.len() - i,
        {
            let special: Option<usize> = match find_display(&self.monitors, monitors[i].id) {
                Some(k) => self.special_on(k),
                None => None,
            };
            specials.push(special);
            assert(self@.specials_for(monitors@).take(i + 1) =~= self@.specials_for(
                monitors@,
            ).take(i as int).push(special));
            i = i + 1;
        }
        assert(self@.specials_for(monitors@).take(monitors@.len() as int)
            =~= self@.specials_for(monitors@));
        specials
    }

    fn keep_focus(&mut self, display: Option<MonitorId>)
        requires
            old(self)@.sound(),
            display is Some ==> old(self)@.monitors.len() > 0,
        ensures
            final(self)@ == old(self)@.focus_kept(display),
            final(self)@.sound(),
            old(self)@.monitors.len() > 0 ==> final(self)@.ready(),
    {
        match display {
            Some(id) => match find_display(&self.monitors, id) {
                Some(k) => {
                    self.focused_monitor = k;
                },
                None => {
                    self.focused_monitor = 0;
                    self.ffm_last_window = None;
                    self.ffm_cooldown_until = None;
                    self.focus_active_window();
                    let rect = self.monitor_rect(0);
                    self.emit(warp_effect(&rect));
                },
            },
            None => {
                if self.focused_monitor >= self.monitors.len() {
                    self.focused_monitor = 0;
                }
            },
        }
    }

    /// Takes over displays that were connected or taken away.
    pub fn refresh_monitors(&mut self, displays: &Vec<Monitor>)
        requires
            old(self)@.sound(),
            old(self)@.focused_monitor < old(self)@.monitors.len() ==> displays@.len() > 0,
            2 * displays@.len() < usize::MAX,
            old(self)@.workspaces.len() + displays@.len() < usize::MAX,
        ensures
            final(self)@ == old(self)@.replugged(displays@),
            final(self)@.sound(),
            displays@.len() > 0 ==> final(self)@.ready(),
    {
        let ghost before = self@;
        let displays = sort_left_to_right(displays);
        let focused: Option<MonitorId> = if self.focused_monitor < self.monitors.len() {
            Some(self.monitors[self.focused_monitor].id)
        } else {
            None
        };
        let mut monitors = self.keep_survivors(&displays);
        self.hide_orphans(&displays, &monitors);
        self.attach_new(&mut monitors, &displays);
        self.active_specials = self.remap_specials(&monitors);
        assert(self@.specials =~= before.specials_for(monitors@));
        self.monitors = monitors;
        self.sync_workspace_visibility();
        self.keep_focus(focused);
        self.apply_layout_twice();
        self.fix_oversized_windows();
    }
}

/// Creating defined workspaces changes nothing but the workspaces.
proof fn lemma_defined_frame(wm: Wm, n: int)
    ensures
        wm.defined_upto(n) == (Wm { workspaces: wm.defined_upto(n).workspaces, ..wm }),
    decreases n,
{
    if n > 0 {
        lemma_defined_frame(wm, n - 1);
    }
}

/// Giving workspaces to monitors changes nothing but these.
proof fn lemma_assigned_frame(wm: Wm, given: Seq<Option<usize>>, n: int)
    ensures
        wm.assigned_upto(given, n) == (Wm {
            monitors: wm.assigned_upto(given, n).monitors,
            workspaces: wm.assigned_upto(given, n).workspaces,
            ..wm
        }),
    decreases n,
{
    if n > 0 {
        lemma_assigned_frame(wm, given, n - 1);
    }
}

/// Workspaces claim monitors for themselves only.
proof fn lemma_claims(wm: Wm, n: int)
    requires
        0 <= n <= wm.workspaces.len() <= usize::MAX,
    ensures
        wm.claims(n).len() == wm.monitors.len(),
        forall|i: int|
            0 <= i < wm.monitors.len() ==> ((#[trigger] wm.claims(n)[i]) is Some ==> wm.claims(
                n,
            )[i]->0 < n),
    decreases n,
{
    if n > 0 {
        lemma_claims(wm, n - 1);
    }
}

} // verus!
