//! What requests come to, and what answers say.
use vstd::prelude::*;
use crate::ipc::commands::{answer, host_asked, later_info, obeyed, Host};
use crate::ipc::events::wanted;
use crate::ipc::protocol::{Content, Reply, WsInfo};
use crate::seqs::{is_order, lemma_sorted_in_order, lemma_sorted_keeps, sorted};
use crate::session::actions::{acted, acted_on_windows, acted_on_workspaces};
use crate::text::{lemma_lex_through, lemma_lex_total, lex_less};
use crate::wm::geometry::{Direction, Rect};
use crate::wm::input::Act;
use crate::wm::state::Wm;
use crate::wm::workspace::{law_target_round_trip, WorkspaceTarget};

verus! {

broadcast use vstd::seq_lib::group_to_multiset_ensures;

/// How long the words of requests are, and how those of one length differ.
proof fn lemma_words_differ()
    ensures
        "reload"@.len() == 6,
        "reload"@[2] == 'l',
        "exec"@.len() == 4,
        "exec"@[0] == 'e',
        "focus"@.len() == 5,
        "focus"@[0] == 'f',
        "swap"@.len() == 4,
        "swap"@[0] == 's',
        "resize"@.len() == 6,
        "resize"@[2] == 's',
        "close"@.len() == 5,
        "close"@[0] == 'c',
        "equalize"@.len() == 8,
        "equalize"@[0] == 'e',
        "unstack"@.len() == 7,
        "workspace"@.len() == 9,
        "move-to-workspace"@.len() == 17,
        "toggle-floating"@.len() == 15,
        "toggle-floating"@[0] == 't',
        "toggle-special"@.len() == 14,
        "toggle-special"@[0] == 't',
        "move-to-special"@.len() == 15,
        "move-to-special"@[0] == 'm',
        "get-workspaces"@.len() == 14,
        "get-workspaces"@[0] == 'g',
        "get-focused"@.len() == 11,
        "get-focused"@[4] == 'f',
        "get-windows"@.len() == 11,
        "get-windows"@[4] == 'w',
        "get-monitors"@.len() == 12,
        "get-tree"@.len() == 8,
        "get-tree"@[0] == 'g',
{
    reveal_strlit("reload");
    reveal_strlit("exec");
    reveal_strlit("focus");
    reveal_strlit("swap");
    reveal_strlit("resize");
    reveal_strlit("close");
    reveal_strlit("equalize");
    reveal_strlit("unstack");
    reveal_strlit("workspace");
    reveal_strlit("move-to-workspace");
    reveal_strlit("toggle-floating");
    reveal_strlit("toggle-special");
    reveal_strlit("move-to-special");
    reveal_strlit("get-workspaces");
    reveal_strlit("get-focused");
    reveal_strlit("get-windows");
    reveal_strlit("get-monitors");
    reveal_strlit("get-tree");
}

/// How the names of directions differ.
proof fn lemma_directions_differ()
    ensures
        "left"@.len() == 4,
        "left"@[0] == 'l',
        "right"@.len() == 5,
        "up"@.len() == 2,
        "down"@.len() == 4,
        "down"@[0] == 'd',
{
    reveal_strlit("left");
    reveal_strlit("right");
    reveal_strlit("up");
    reveal_strlit("down");
}

/// A request with the name of a direction does what the action of that direction does.
pub proof fn law_direction_requests_are_actions(wm: Wm, args: Seq<Seq<char>>, d: Direction)
    requires
        args.len() > 0,
        args[0] == match d {
            Direction::Left => "left"@,
            Direction::Right => "right"@,
            Direction::Up => "up"@,
            Direction::Down => "down"@,
        },
    ensures
        obeyed(wm, "focus"@, args) == acted(wm, Act::Focus(d)),
        obeyed(wm, "swap"@, args) == acted(wm, Act::Swap(d)),
        obeyed(wm, "resize"@, args) == acted(wm, Act::Resize(d)),
{
    lemma_directions_differ();
    lemma_words_differ();
    reveal(acted_on_windows);
}

/// A request with the name of a workspace does what the action for that workspace does.
pub proof fn law_workspace_requests_are_actions(
    wm: Wm,
    args: Seq<Seq<char>>,
    t: WorkspaceTarget,
)
    requires
        args.len() > 0,
        t.is_regular(),
        args[0] == t.text(),
    ensures
        obeyed(wm, "workspace"@, args) == acted(wm, Act::Workspace(t)),
        obeyed(wm, "move-to-workspace"@, args) == acted(wm, Act::MoveToWorkspace(t)),
{
    lemma_words_differ();
    law_target_round_trip(t);
    reveal(acted_on_workspaces);
}

/// Other requests do what the actions of their names do.
pub proof fn law_plain_requests_are_actions(wm: Wm, args: Seq<Seq<char>>)
    ensures
        obeyed(wm, "close"@, args) == acted(wm, Act::CloseWindow),
        obeyed(wm, "equalize"@, args) == acted(wm, Act::Equalize),
        obeyed(wm, "unstack"@, args) == acted(wm, Act::Unstack),
        obeyed(wm, "toggle-floating"@, args) == acted(wm, Act::ToggleFloat),
        obeyed(wm, "reload"@, args) == wm,
        obeyed(wm, "exec"@, args) == wm,
        args.len() > 0 ==> obeyed(wm, "toggle-special"@, args) == acted(
            wm,
            Act::ToggleSpecial(args[0]),
        ),
        args.len() > 0 ==> obeyed(wm, "move-to-special"@, args) == acted(
            wm,
            Act::MoveToSpecial(args[0]),
        ),
        host_asked("reload"@, args) == Host::Reload,
        args.len() > 0 ==> host_asked("exec"@, args) == Host::Exec(args[0]),
{
    lemma_words_differ();
    reveal(acted_on_windows);
    reveal(acted_on_workspaces);
}

// --- Answers ---

/// Whether a text stands before another one in a dictionary: at the first place where they
/// differ it has the smaller character, or it ends there.
pub open spec fn reads_before(a: Seq<char>, b: Seq<char>) -> bool {
    exists|k: int|
        0 <= k <= a.len() && k < b.len() && #[trigger] a.take(k) == b.take(k) && (k == a.len()
            || (a[k] as u32) < (b[k] as u32))
}

proof fn lemma_reads_before(a: Seq<char>, b: Seq<char>)
    ensures
        reads_before(a, b) ==> lex_less(a, b),
    decreases a.len(),
{
    if reads_before(a, b) {
        let k = choose|k: int|
            0 <= k <= a.len() && k < b.len() && #[trigger] a.take(k) == b.take(k) && (k == a.len()
                || (a[k] as u32) < (b[k] as u32));
        if k > 0 {
            assert(a.take(k)[0] == a[0] && b.take(k)[0] == b[0]);
            assert(a.skip(1).take(k - 1) =~= a.take(k).skip(1));
            assert(b.skip(1).take(k - 1) =~= b.take(k).skip(1));
            assert(k - 1 == a.skip(1).len() || (a.skip(1)[k - 1] as u32) < (b.skip(1)[k
                - 1] as u32));
            assert(reads_before(a.skip(1), b.skip(1)));
            lemma_reads_before(a.skip(1), b.skip(1));
        }
    }
}

proof fn lemma_info_order()
    ensures
        is_order(later_info()),
{
    let gt = later_info();
    assert forall|a: WsInfo, b: WsInfo| #[trigger] gt(a, b) implies !gt(b, a) by {
        lemma_lex_total(b.id, a.id);
    }
    assert forall|a: WsInfo, b: WsInfo, c: WsInfo|
        !(#[trigger] gt(a, b)) && !(#[trigger] gt(b, c)) implies !gt(a, c) by {
        lemma_lex_through(c.id, b.id, a.id);
    }
}

/// Asked for the workspaces, the answer names the active one and lists all of them in the order
/// of a dictionary, each with its name, how many windows it has, tiled and floating, and which
/// has the focus there.
pub proof fn law_all_workspaces_are_listed(
    wm: Wm,
    args: Seq<Seq<char>>,
    live: Option<(Seq<char>, Rect)>,
)
    ensures
        answer(wm, "get-workspaces"@, args, live) matches Reply::Data(
            Content::Workspaces { active, workspaces },
        ) && {
            let name = wm.workspaces[wm.active_idx() as int].id.text();
            &&& active == name
            &&& workspaces.len() == wm.workspaces.len()
            &&& forall|i: int|
                0 <= i < wm.workspaces.len() ==> exists|k: int|
                    #![trigger workspaces[k]]
                    0 <= k < workspaces.len() && {
                        let ws = #[trigger] wm.workspaces[i];
                        &&& workspaces[k].id == ws.id.text()
                        &&& workspaces[k].windows == ws.tree.windows().len() + ws.floating.len()
                        &&& workspaces[k].focused == ws.focused
                        &&& workspaces[k].active == (ws.id.text() == name)
                    }
            &&& forall|a: int, b: int|
                0 <= a < b < workspaces.len() ==> !reads_before(
                    (#[trigger] workspaces[b]).id,
                    (#[trigger] workspaces[a]).id,
                )
        },
{
    lemma_words_differ();
    let gt = later_info();
    let raw = Seq::new(wm.workspaces.len(), |i: int| wm.ws_info(wm.workspaces[i]));
    let list = sorted(raw, gt);
    lemma_info_order();
    lemma_sorted_in_order(raw, gt);
    lemma_sorted_keeps(raw, gt);
    assert(list == wm.ws_list());
    assert forall|i: int| 0 <= i < wm.workspaces.len() implies exists|k: int|
        #![trigger list[k]]
        0 <= k < list.len() && {
            let ws = #[trigger] wm.workspaces[i];
            &&& list[k].id == ws.id.text()
            &&& list[k].windows == ws.tree.windows().len() + ws.floating.len()
            &&& list[k].focused == ws.focused
            &&& list[k].active == (ws.id.text() == wm.active().id.text())
        } by {
        let info = raw[i];
        assert(raw.contains(info));
        assert(raw.to_multiset().count(info) > 0);
        assert(list.contains(info));
        let k = choose|k: int| 0 <= k < list.len() && list[k] == info;
        assert(list[k].windows == wm.workspaces[i].window_ids().len());
    }
    assert forall|a: int, b: int| 0 <= a < b < list.len() implies !reads_before(
        (#[trigger] list[b]).id,
        (#[trigger] list[a]).id,
    ) by {
        assert(!gt(list[a], list[b]));
        lemma_reads_before(list[b].id, list[a].id);
    }
}

/// Asked for the windows, the answer lists all known ones with number, program, title and
/// whether they float; asked for the monitors, all of them in order with what they show,
/// counted from one, and whether they have the focus.
pub proof fn law_windows_and_monitors_are_listed(
    wm: Wm,
    args: Seq<Seq<char>>,
    live: Option<(Seq<char>, Rect)>,
)
    requires
        wm.monitors.len() <= usize::MAX,
        forall|i: int|
            0 <= i < wm.monitors.len() ==> (#[trigger] wm.monitors[i]).active_workspace
                < usize::MAX,
    ensures
        answer(wm, "get-windows"@, args, live) matches Reply::Data(Content::Windows(list)) && {
            &&& list.len() == wm.registry.len()
            &&& forall|i: int|
                0 <= i < list.len() ==> {
                    let w = wm.registry[i];
                    #[trigger] list[i] == (w.id, w.app_name, w.title, w.floating)
                }
        },
        answer(wm, "get-monitors"@, args, live) matches Reply::Data(Content::Monitors(list)) && {
            &&& list.len() == wm.monitors.len()
            &&& forall|i: int|
                0 <= i < list.len() ==> {
                    let m = wm.monitors[i];
                    &&& (#[trigger] list[i]).id == m.id
                    &&& list[i].index == i
                    &&& list[i].frame == m.frame
                    &&& list[i].usable_frame == m.usable_frame
                    &&& list[i].is_primary == m.is_primary
                    &&& list[i].active_workspace == m.active_workspace + 1
                    &&& list[i].focused == (i == wm.focused_monitor)
                }
        },
{
    lemma_words_differ();
}

/// Asked for the focused window, the answer describes the window that has the focus on the
/// active workspace, with the title and place that it has on the screen, or says that none has.
pub proof fn law_focused_window_is_described(
    wm: Wm,
    args: Seq<Seq<char>>,
    title: Seq<char>,
    place: Rect,
)
    ensures
        match wm.workspaces[wm.active_idx() as int].focused {
            Some(w) => answer(wm, "get-focused"@, args, Some((title, place))) matches Reply::Data(
                Content::Focused(info),
            ) && {
                &&& info.id == w
                &&& info.title == title
                &&& info.rect == place
                &&& info.floating == wm.workspaces[wm.active_idx() as int].floats(w)
                &&& info.workspace == wm.workspaces[wm.active_idx() as int].id.text()
            },
            None => answer(wm, "get-focused"@, args, Some((title, place))) == Reply::Data(
                Content::NoFocus,
            ),
        },
{
    lemma_words_differ();
}

/// Asked for the tree without a number, the answer lists the tiles of the active workspace where
/// they are shown on the focused monitor, and its floating windows where they float.
pub proof fn law_tree_is_listed(wm: Wm, live: Option<(Seq<char>, Rect)>)
    requires
        wm.showing(wm.active_idx()) == Some(wm.focused_monitor),
    ensures
        answer(wm, "get-tree"@, seq![], live) matches Reply::Data(
            Content::Tree { workspace, tiled, floating },
        ) && {
            let ws = wm.workspaces[wm.active_idx() as int];
            let tiles = wm.tiles(wm.active_idx(), wm.focused_rect());
            &&& workspace == ws.id.text()
            &&& tiled.len() == tiles.len()
            &&& forall|i: int|
                0 <= i < tiles.len() ==> (#[trigger] tiled[i]).id == tiles[i].0 && tiled[i].rect
                    == tiles[i].1 && tiled[i].stacked == (ws.tree.stack_of(tiles[i].0) is Some)
            &&& forall|i: int|
                0 <= i < tiles.len() ==> ((#[trigger] tiled[i]).stack_active <==> (
                ws.tree.stack_of(tiles[i].0) matches Some((members, active)) && 0 <= active
                    < members.len() && members[active] == tiles[i].0))
            &&& floating.len() == ws.floating.len()
            &&& forall|i: int|
                0 <= i < floating.len() ==> ({
                    let (id, _, place) = #[trigger] floating[i];
                    id == ws.floating[i].id && place == ws.floating[i].geometry
                })
        },
{
    lemma_words_differ();
}

// --- Who is told ---

/// A reader is told of a kind of event if it names no kinds, or if that kind or a star is among those
/// it names.
pub proof fn law_readers_hear_what_they_name(filters: Seq<Seq<char>>, kind: Seq<char>, i: int)
    ensures
        filters.len() == 0 ==> wanted(filters, kind),
        0 <= i < filters.len() && (filters[i] == kind || filters[i] == "*"@) ==> wanted(
            filters,
            kind,
        ),
        filters.len() > 0 && (forall|j: int|
            0 <= j < filters.len() ==> #[trigger] filters[j] != kind && filters[j] != "*"@)
            ==> !wanted(filters, kind),
{
}

} // verus!
