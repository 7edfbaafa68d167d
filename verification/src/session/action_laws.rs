//! What actions come to.
use vstd::prelude::*;
use crate::ipc::events::Notice;
use crate::session::actions::{
    acted, acted_on_monitors, acted_on_windows, acted_on_workspaces, call_of, moused, notice_of,
    MouseEvent,
};
use crate::config::lua::Script;
use crate::config::order::{ordered_defs, DefOrder};
use crate::config::document::{resolved_rows, Managed};
use crate::platform::hotkey::{carbon_modifiers, law_key_code_round_trip};
use crate::session::runtime::{hotkey_number, hotkey_request, in_force, set_up};
use crate::session::tray::{active_title, menu, tray_step, TrayAction};
use crate::text::{decimal, trimmed};
use crate::wm::oversize::WindowSize;
use crate::wm::adjacency::{neighbours, rect_of};
use crate::wm::effects::Effect;
use crate::wm::focus::remembered_target;
use crate::wm::focus_laws::law_focus_goes_to_neighbour;
use crate::wm::geometry::Direction;
use crate::wm::input::{key_of_code, Act, Bind};
use crate::wm::moving_laws::{
    keeps_off_edge, law_making_even, law_resize_step, law_swap_trades_places,
};
use crate::wm::geometry::SplitDirection;
use crate::wm::resize_laws::{is_even, own_share};
use crate::wm::sending_laws::{
    is_carried, law_window_goes_to_monitor_beside, law_window_goes_to_workspace,
};
use crate::wm::state::{DragMode, Wm};
use crate::wm::state_laws::{law_switch_reaches_workspace, seated};
use crate::wm::stepping_laws::{
    law_monitor_step_goes_round, law_workspace_step_goes_round, lists_in_order, names_differ,
};
use crate::wm::window::{window_of, Win, WindowId};
use crate::wm::workspace::{law_workspace_by_name, WorkspaceTarget, Ws, WsId};
use crate::wm::workspace_laws::in_one_place;

verus! {

// --- Workspaces and monitors ---

/// The action for the next workspace makes the one behind the active one active, by number
/// and then by letter and round again, and the one for the previous workspace the one before
/// it.
pub proof fn law_workspace_actions_step(wm: Wm, order: Seq<WsId>, i: int)
    requires
        seated(wm),
        names_differ(wm.workspaces),
        lists_in_order(order, wm.workspaces),
        0 <= i < order.len(),
        wm.active().id == order[i],
    ensures
        acted(wm, Act::WorkspaceNext).active().id == order[(i + 1) % (order.len() as int)],
        acted(wm, Act::WorkspacePrev).active().id == order[(i + order.len() - 1) % (
        order.len() as int)],
{
    reveal(acted_on_workspaces);
    law_workspace_step_goes_round(wm, true, order, i);
    law_workspace_step_goes_round(wm, false, order, i);
}

/// The action for a workspace makes it active, if it exists.
pub proof fn law_workspace_action_switches(wm: Wm, target: WorkspaceTarget, id: WsId, k: int)
    requires
        seated(wm),
        0 <= k < wm.workspaces.len(),
        wm.workspaces[k].id == id,
        target matches WorkspaceTarget::Numbered(n) ==> id == WsId::Numbered(n),
        target matches WorkspaceTarget::Lettered(c) ==> id == WsId::Lettered(c),
    ensures
        acted(wm, Act::Workspace(target)).active().id == id,
{
    reveal(acted_on_workspaces);
    let p = crate::wm::workspace::is_named(id);
    crate::seqs::lemma_first_where_found(wm.workspaces, p);
    if crate::seqs::first_where(wm.workspaces, p) is None {
        assert(!p(wm.workspaces[k]));
    }
    law_switch_reaches_workspace(wm, id);
}

/// The actions for the next and the previous monitor give the focus to it, in a ring; those
/// that move a window there carry the focused window to what it shows.
pub proof fn law_monitor_actions_step(wm: Wm, w: WindowId, from: usize)
    requires
        seated(wm),
        in_one_place(wm.workspaces),
        wm.effective_focused() == Some(w),
        from < wm.workspaces.len(),
        wm.workspaces[from as int].holds(w),
    ensures
        ({
            let n = wm.monitors.len() as int;
            let i = wm.focused_monitor as int;
            let next = (i + 1) % n;
            let prev = (i + n - 1) % n;
            &&& acted(wm, Act::FocusMonitorNext).focused_monitor == next
            &&& acted(wm, Act::FocusMonitorPrev).focused_monitor == prev
            &&& n > 1 && from != wm.monitors[next].active_workspace ==> is_carried(
                wm.workspaces,
                acted(wm, Act::MoveToMonitorNext).workspaces,
                w,
                wm.monitors[next].active_workspace as int,
            )
            &&& n > 1 && from != wm.monitors[prev].active_workspace ==> is_carried(
                wm.workspaces,
                acted(wm, Act::MoveToMonitorPrev).workspaces,
                w,
                wm.monitors[prev].active_workspace as int,
            )
        }),
{
    reveal(acted_on_monitors);
    law_monitor_step_goes_round(wm, true);
    law_monitor_step_goes_round(wm, false);
    let n = wm.monitors.len() as int;
    let i = wm.focused_monitor as int;
    if n > 1 && from != wm.monitors[(i + 1) % n].active_workspace {
        law_window_goes_to_monitor_beside(wm, true, w, from);
    }
    if n > 1 && from != wm.monitors[(i + n - 1) % n].active_workspace {
        law_window_goes_to_monitor_beside(wm, false, w, from);
    }
}

/// The action that moves a window to a workspace carries the focused window there.
pub proof fn law_move_action_carries_window(
    wm: Wm,
    target: WorkspaceTarget,
    id: WsId,
    w: WindowId,
    from: usize,
    to: usize,
)
    requires
        seated(wm),
        in_one_place(wm.workspaces),
        wm.effective_focused() == Some(w),
        from < wm.workspaces.len(),
        wm.workspaces[from as int].holds(w),
        to < wm.workspaces.len(),
        wm.workspaces[to as int].id == id,
        forall|j: int| 0 <= j < to ==> (#[trigger] wm.workspaces[j]).id != id,
        from != to,
        target matches WorkspaceTarget::Numbered(n) ==> id == WsId::Numbered(n),
        target matches WorkspaceTarget::Lettered(c) ==> id == WsId::Lettered(c),
    ensures
        is_carried(
            wm.workspaces,
            acted(wm, Act::MoveToWorkspace(target)).workspaces,
            w,
            to as int,
        ),
        acted(wm, Act::MoveToWorkspace(target)).focused_monitor == wm.focused_monitor,
{
    reveal(acted_on_workspaces);
    law_window_goes_to_workspace(wm, id, w, from, to);
}

// --- Windows ---

/// From a tiled window in no stack that keeps off the edge and has neighbours in a
/// direction, the action for the focus gives it to a neighbour, and the action for a swap
/// trades places with the best one.
pub proof fn law_direction_actions(wm: Wm, direction: Direction, w: WindowId)
    requires
        in_one_place(wm.workspaces),
        wm.workspaces.len() <= usize::MAX,
        wm.active_idx() < wm.workspaces.len(),
        wm.active().focused == Some(w),
        wm.active().tree.windows().contains(w),
        !wm.active().tree.in_stack(w),
        ({
            let tiles = wm.focus_tiles(wm.active_idx(), wm.focused_rect());
            &&& rect_of(tiles, w) is Some
            &&& keeps_off_edge(
                rect_of(tiles, w)->0,
                wm.focused_rect(),
                direction,
                wm.gap_outer + 2000,
            )
            &&& neighbours(tiles, w, direction).len() > 0
        }),
    ensures
        ({
            let tiles = wm.focus_tiles(wm.active_idx(), wm.focused_rect());
            let best = neighbours(tiles, w, direction)[0];
            let swapped = acted(wm, Act::Swap(direction));
            &&& remembered_target(wm.memory, w, direction) is None ==> acted(
                wm,
                Act::Focus(direction),
            ).active().focused == Some(best)
            &&& swapped.active().focused == Some(w)
            &&& rect_of(swapped.focus_tiles(swapped.active_idx(), swapped.focused_rect()), w)
                == rect_of(tiles, best)
            &&& rect_of(swapped.focus_tiles(swapped.active_idx(), swapped.focused_rect()), best)
                == rect_of(tiles, w)
        }),
{
    reveal(acted_on_windows);
    let tiles = wm.focus_tiles(wm.active_idx(), wm.focused_rect());
    law_focus_goes_to_neighbour(wm, direction, w);
    law_swap_trades_places(wm, direction, w, neighbours(tiles, w, direction)[0]);
}

/// The action for resizing moves the share of the focused window by fifty thousandths, up to
/// the right and down, and the one for even splits makes all of them even.
pub proof fn law_size_actions(wm: Wm, direction: Direction, w: WindowId)
    requires
        wm.active_idx() < wm.workspaces.len(),
        wm.active().focused == Some(w),
        wm.active().tree.wf(),
    ensures
        ({
            let kind = if direction is Left || direction is Right {
                SplitDirection::Vertical
            } else {
                SplitDirection::Horizontal
            };
            let share = own_share(wm.active().tree, w, kind);
            let now = own_share(acted(wm, Act::Resize(direction)).active().tree, w, kind);
            share is Some && 150 <= share->0 <= 850 ==> now == Some(
                if direction is Right || direction is Down {
                    share->0 + 50
                } else {
                    share->0 - 50
                },
            )
        }),
        is_even(acted(wm, Act::Equalize).active().tree),
{
    reveal(acted_on_windows);
    law_resize_step(wm, direction, w);
    law_making_even(wm);
}

/// The action for closing asks the window that has the focus to close, and changes nothing
/// else.
pub proof fn law_close_action_asks_focused_window(wm: Wm)
    ensures
        ({
            let after = acted(wm, Act::CloseWindow);
            &&& after.workspaces == wm.workspaces
            &&& after.registry == wm.registry
            &&& match wm.effective_focused() {
                Some(w) => after.effects == wm.effects.push(Effect::Close { id: w }),
                None => after.effects == wm.effects,
            }
        }),
{
    reveal(acted_on_windows);
    if let Some(w) = wm.effective_focused() {
        assert(wm.effects + seq![Effect::Close { id: w }] =~= wm.effects.push(
            Effect::Close { id: w },
        ));
    }
}

/// Actions for the program around leave all windows and workspaces alone.
pub proof fn law_outer_actions_change_nothing(wm: Wm)
    ensures
        acted(wm, Act::SpawnTerminal) == wm,
        acted(wm, Act::Reload) == wm,
        acted(wm, Act::Exit) == wm,
{
    reveal(acted_on_windows);
}

// --- What is made known ---

/// A change of the workspace is made known with the name of the one that was left first and
/// the name of the one that was reached second; a change of the focus with the window that has
/// it; a change of the monitor with its number from zero. Other actions are not made known.
pub proof fn law_changes_are_made_known(before: Wm, after: Wm, direction: Direction)
    ensures
        ({
            let old_name = before.workspaces[before.active_idx() as int].id.text();
            let new_name = after.workspaces[after.active_idx() as int].id.text();
            &&& call_of(notice_of(before, after, Act::WorkspaceNext)) == Some(
                ("workspace_changed"@, seq![old_name, new_name]),
            )
            &&& call_of(notice_of(before, after, Act::WorkspacePrev)) == Some(
                ("workspace_changed"@, seq![old_name, new_name]),
            )
            &&& notice_of(before, after, Act::FocusMonitorNext) == Some(
                Notice::MonitorChanged { index: after.focused_monitor },
            )
            &&& notice_of(before, after, Act::FocusMonitorPrev) == Some(
                Notice::MonitorChanged { index: after.focused_monitor },
            )
            &&& match after.workspaces[after.active_idx() as int].focused {
                Some(w) => call_of(notice_of(before, after, Act::Focus(direction))) == Some(
                    ("window_focused"@, seq![decimal(w as nat)]),
                ),
                None => notice_of(before, after, Act::Focus(direction)) is None,
            }
            &&& notice_of(before, after, Act::Swap(direction)) is None
            &&& notice_of(before, after, Act::Resize(direction)) is None
            &&& notice_of(before, after, Act::Equalize) is None
        }),
{
}

// --- The mouse ---

/// With the command key held the left button moves the topmost floating window under the mouse
/// and the right button changes its size, as long as it is held; without the key nothing is
/// dragged. Letting go ends the drag and leaves the window where it is.
pub proof fn law_buttons_drag(wm: Wm, x: i64, y: i64, to_x: i64, to_y: i64)
    ensures
        moused(wm, MouseEvent::LeftDown { x, y, cmd_held: false }) == wm,
        moused(wm, MouseEvent::RightDown { x, y, cmd_held: false }) == wm,
        moused(
            moused(wm, MouseEvent::LeftDown { x, y, cmd_held: true }),
            MouseEvent::LeftDragged { x: to_x, y: to_y },
        ) == wm.drag_begun(x, y, DragMode::Move).drag_updated(to_x, to_y),
        moused(
            moused(wm, MouseEvent::RightDown { x, y, cmd_held: true }),
            MouseEvent::RightDragged { x: to_x, y: to_y },
        ) == wm.drag_begun(x, y, DragMode::Resize).drag_updated(to_x, to_y),
        moused(wm, MouseEvent::LeftUp { x, y }).drag is None,
        moused(wm, MouseEvent::RightUp { x, y }).drag is None,
        moused(wm, MouseEvent::LeftUp { x, y }).workspaces == wm.workspaces,
        moused(wm, MouseEvent::RightUp { x, y }).workspaces == wm.workspaces,
{
}

// --- The menu ---

/// The menu lists workspaces in their order, a special one only while it has windows; each with its
/// name, whether it can be seen, how many windows it has, and where it leads.
pub proof fn law_menu_lists_workspaces(workspaces: Seq<Ws>, ws: Ws, registry: Seq<Win>)
    ensures
        ({
            let before = menu(workspaces, registry);
            let after = menu(workspaces.push(ws), registry);
            let windows = ws.tree.windows().len() + ws.floating.len();
            if ws.id is Special && windows == 0 {
                after == before
            } else {
                &&& after.len() == before.len() + 1
                &&& after.take(before.len() as int) == before
                &&& after.last().id == ws.id.text()
                &&& after.last().active == ws.visible
                &&& after.last().windows == windows
                &&& match ws.id {
                    WsId::Numbered(n) => after.last().target == Some(WorkspaceTarget::Numbered(n)),
                    WsId::Lettered(c) => after.last().target == Some(WorkspaceTarget::Lettered(c)),
                    WsId::Special(_) => after.last().target is None,
                }
            }
        }),
{
    assert(workspaces.push(ws).drop_last() =~= workspaces);
    let before = menu(workspaces, registry);
    let after = menu(workspaces.push(ws), registry);
    if !(ws.id is Special && ws.window_ids().len() == 0) {
        assert(after.take(before.len() as int) =~= before);
    }
}

/// A workspace goes by the title of its focused window, or of the one that had the focus last; where
/// that is blank, by the name of its program.
pub proof fn law_workspace_goes_by_its_window(ws: Ws, registry: Seq<Win>, w: WindowId)
    requires
        ws.focused == Some(w) || (ws.focused is None && ws.focus_history.len() > 0
            && ws.focus_history.last() == w),
        window_of(registry, w) is Some,
    ensures
        ({
            let win = window_of(registry, w)->0;
            let title = trimmed(win.title);
            let program = trimmed(win.app_name);
            &&& title.len() > 0 ==> active_title(ws, registry) == Some(title)
            &&& title.len() == 0 && program.len() > 0 ==> active_title(ws, registry) == Some(
                program,
            )
            &&& title.len() == 0 && program.len() == 0 ==> active_title(ws, registry) is None
        }),
{
}

/// The entries of the menu lead to a workspace, to the settings, to a reload and to the end of the
/// program.
pub proof fn law_menu_entries_lead(target: WorkspaceTarget)
    ensures
        tray_step(TrayAction::SwitchWorkspace(target)) == Some(Act::Workspace(target)),
        tray_step(TrayAction::OpenSettings) is None,
        tray_step(TrayAction::Reload) == Some(Act::Reload),
        tray_step(TrayAction::Quit) == Some(Act::Exit),
{
}

// --- Configuration ---

/// A configuration that is taken over gives the gaps, the height of the bar, what follows what, the
/// rules and the overlays; there are borders if they have a width. Windows stay as they are known.
pub proof fn law_configuration_takes_hold(wm: Wm, script: Script)
    ensures
        ({
            let after = set_up(wm, script);
            &&& after.gap_inner == script.setup.gap_inner
            &&& after.gap_outer == script.setup.gap_outer
            &&& after.bar_height == script.setup.bar_height
            &&& after.focus_follows_mouse == script.setup.focus_follows_mouse
            &&& after.mouse_follows_focus == script.setup.mouse_follows_focus
            &&& after.rules == script.rules
            &&& after.overlays == script.overlays
            &&& after.borders == (script.setup.border_width > 0)
            &&& after.registry == wm.registry
            &&& after.monitors == wm.monitors
            &&& after.workspaces.len() >= wm.workspaces.len()
            &&& forall|i: int|
                0 <= i < wm.workspaces.len() ==> #[trigger] after.workspaces[i] == wm.workspaces[i]
        }),
{
    let s = Wm {
        focus_follows_mouse: script.setup.focus_follows_mouse,
        mouse_follows_focus: script.setup.mouse_follows_focus,
        gap_inner: script.setup.gap_inner,
        gap_outer: script.setup.gap_outer,
        bar_height: script.setup.bar_height,
        rules: script.rules,
        overlays: script.overlays,
        borders: script.setup.border_width > 0,
        ..wm
    };
    let d = Wm { defs: ordered_defs(script.defs, DefOrder::Name), ..s };
    assert(set_up(wm, script) == d.defined_upto(d.defs.len() as int));
    lemma_defined_keeps(d, d.defs.len() as int);
}

proof fn lemma_defined_keeps(wm: Wm, n: int)
    ensures
        ({
            let after = wm.defined_upto(n);
            &&& after == (Wm { workspaces: after.workspaces, ..wm })
            &&& after.workspaces.len() >= wm.workspaces.len()
            &&& forall|i: int|
                0 <= i < wm.workspaces.len() ==> #[trigger] after.workspaces[i] == wm.workspaces[i]
        }),
    decreases n,
{
    if n > 0 {
        lemma_defined_keeps(wm, n - 1);
        let before = wm.defined_upto(n - 1);
        law_workspace_by_name(before.workspaces, wm.defs[n - 1].id);
    }
}

// --- Work that goes on ---

/// What the first task leaves to do comes before the tasks that wait, which keep their order.
pub proof fn law_tasks_are_done_in_order(wm: Wm, sizes: Seq<WindowSize>)
    requires
        wm.agenda.len() > 0,
    ensures
        ({
            let after = wm.resumed(sizes);
            let waiting = wm.agenda.len() - 1;
            &&& after.agenda.len() >= waiting
            &&& forall|k: int|
                0 <= k < waiting ==> after.agenda[after.agenda.len() - waiting + k]
                    == #[trigger] wm.agenda.skip(1)[k]
        }),
{
}

/// A binding is asked for with the code of its key and the bits of its modifiers; so many bindings
/// after the first its number is as many larger, and starts again at 0 beyond the largest.
pub proof fn law_bindings_are_asked_for(bind: Bind, first: u32, n: nat)
    ensures
        ({
            let id = hotkey_number(first, n as int);
            let asked = hotkey_request(bind, id);
            &&& first + n <= u32::MAX ==> id == first + n
            &&& first + n == u32::MAX + 1 ==> id == 0
            &&& asked.id == id
            &&& key_of_code(asked.code as u16) == Some(bind.key)
            &&& asked.modifiers == carbon_modifiers(bind.modifiers)
            &&& asked.signature == 0x7461726d
        }),
{
    law_key_code_round_trip(bind.key, 0);
}

/// What holds while the program runs keeps the settings and rules of the script, and has each binding
/// that comes out of all parts of the file, in order.
pub proof fn law_script_holds(managed: Managed, script: Script)
    ensures
        ({
            let held = in_force(managed, script);
            let rows = resolved_rows(managed, script, script.setup.mod_key);
            &&& held.setup == script.setup
            &&& held.rules == script.rules
            &&& held.binds.len() == rows.len()
            &&& forall|i: int| 0 <= i < rows.len() ==> #[trigger] held.binds[i] == rows[i].bind
        }),
{
}

} // verus!
