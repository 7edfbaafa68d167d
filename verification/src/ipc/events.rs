//! Events for those who watch the window manager from outside.
use vstd::prelude::*;
use crate::seqs::{first_where, lemma_first_where, lemma_first_where_none};
use crate::text::{copy, same, views};

verus! {

/// What happened.
#[derive(Debug)]
pub enum WmEvent {
    WorkspaceChanged { old_id: String, new_id: String },
    WindowFocused { window_id: u32, app_name: String },
    WindowCreated { window_id: u32, app_name: String },
    WindowClosed { window_id: u32 },
    MonitorChanged { index: usize },
    LayoutChanged { workspace: String },
    ModeChanged { mode: String },
}

/// What happened, as a mathematical value.
pub enum Notice {
    WorkspaceChanged { old_id: Seq<char>, new_id: Seq<char> },
    WindowFocused { window_id: u32, app_name: Seq<char> },
    WindowCreated { window_id: u32, app_name: Seq<char> },
    WindowClosed { window_id: u32 },
    MonitorChanged { index: usize },
    LayoutChanged { workspace: Seq<char> },
    ModeChanged { mode: Seq<char> },
}

impl View for WmEvent {
    type V = Notice;

    open spec fn view(&self) -> Notice {
        match self {
            WmEvent::WorkspaceChanged { old_id, new_id } => Notice::WorkspaceChanged {
                old_id: old_id@,
                new_id: new_id@,
            },
            WmEvent::WindowFocused { window_id, app_name } => Notice::WindowFocused {
                window_id: *window_id,
                app_name: app_name@,
            },
            WmEvent::WindowCreated { window_id, app_name } => Notice::WindowCreated {
                window_id: *window_id,
                app_name: app_name@,
            },
            WmEvent::WindowClosed { window_id } => Notice::WindowClosed { window_id: *window_id },
            WmEvent::MonitorChanged { index } => Notice::MonitorChanged { index: *index },
            WmEvent::LayoutChanged { workspace } => Notice::LayoutChanged { workspace: workspace@ },
            WmEvent::ModeChanged { mode } => Notice::ModeChanged { mode: mode@ },
        }
    }
}

impl Clone for WmEvent {
    fn clone(&self) -> (r: Self)
        ensures
            r@ == self@,
    {
        match self {
            WmEvent::WorkspaceChanged { old_id, new_id } => WmEvent::WorkspaceChanged {
                old_id: copy(old_id.as_str()),
                new_id: copy(new_id.as_str()),
            },
            WmEvent::WindowFocused { window_id, app_name } => WmEvent::WindowFocused {
                window_id: *window_id,
                app_name: copy(app_name.as_str()),
            },
            WmEvent::WindowCreated { window_id, app_name } => WmEvent::WindowCreated {
                window_id: *window_id,
                app_name: copy(app_name.as_str()),
            },
            WmEvent::WindowClosed { window_id } => WmEvent::WindowClosed { window_id: *window_id },
            WmEvent::MonitorChanged { index } => WmEvent::MonitorChanged { index: *index },
            WmEvent::LayoutChanged { workspace } => WmEvent::LayoutChanged {
                workspace: copy(workspace.as_str()),
            },
            WmEvent::ModeChanged { mode } => WmEvent::ModeChanged { mode: copy(mode.as_str()) },
        }
    }
}

impl Notice {
    /// The kind of event, by which it is asked for.
    pub open spec fn kind(self) -> Seq<char> {
        match self {
            Notice::WorkspaceChanged { .. } => "workspace_changed"@,
            Notice::WindowFocused { .. } => "window_focused"@,
            Notice::WindowCreated { .. } => "window_created"@,
            Notice::WindowClosed { .. } => "window_closed"@,
            Notice::MonitorChanged { .. } => "monitor_changed"@,
            Notice::LayoutChanged { .. } => "layout_changed"@,
            Notice::ModeChanged { .. } => "mode_changed"@,
        }
    }
}

impl WmEvent {
    pub fn event_type(&self) -> (r: &'static str)
        ensures
            r@ == self@.kind(),
    {
        match self {
            WmEvent::WorkspaceChanged { .. } => "workspace_changed",
            WmEvent::WindowFocused { .. } => "window_focused",
            WmEvent::WindowCreated { .. } => "window_created",
            WmEvent::WindowClosed { .. } => "window_closed",
            WmEvent::MonitorChanged { .. } => "monitor_changed",
            WmEvent::LayoutChanged { .. } => "layout_changed",
            WmEvent::ModeChanged { .. } => "mode_changed",
        }
    }
}

/// Whether someone with some filters wants a kind of event: without filters,
/// or with a star among them, all kinds.
pub open spec fn wanted(filters: Seq<Seq<char>>, kind: Seq<char>) -> bool {
    filters.len() == 0 || filters.contains("*"@) || filters.contains(kind)
}

fn has_filter(filters: &Vec<String>, kind: &str) -> (r: bool)
    ensures
        r == views(filters@).contains(kind@),
{
    let mut i: usize = 0;
    while i < filters.len()
        invariant
            i <= filters@.len(),
            forall|j: int| 0 <= j < i ==> (#[trigger] filters@[j])@ != kind@,
        decreases filters.len() - i,
    {
        if same(filters[i].as_str(), kind) {
            assert(views(filters@)[i as int] == kind@);
            return true;
        }
        i = i + 1;
    }
    proof {
        if views(filters@).contains(kind@) {
            let j = choose|j: int|
                0 <= j < filters@.len() && views(filters@)[j] == kind@;
            assert(filters@[j]@ == kind@);
        }
    }
    false
}

/// Whether someone with some filters wants an event.
pub fn wants(filters: &Vec<String>, event: &WmEvent) -> (r: bool)
    ensures
        r == wanted(views(filters@), event@.kind()),
{
    filters.len() == 0 || has_filter(filters, "*") || has_filter(filters, event.event_type())
}

// --- The bus ---

/// How many events wait for one who does not read them.
pub const MAILBOX_CAPACITY: usize = 256;

/// The events that wait for one reader.
#[derive(Debug)]
pub struct Mailbox {
    pub id: u64,
    pub queue: Vec<WmEvent>,
    /// Whether the reader is still there.
    pub connected: bool,
}

/// A mailbox as a mathematical value.
pub struct Inbox {
    pub id: u64,
    pub queue: Seq<Notice>,
    pub connected: bool,
}

pub open spec fn notices(s: Seq<WmEvent>) -> Seq<Notice> {
    Seq::new(s.len(), |i: int| s[i]@)
}

impl View for Mailbox {
    type V = Inbox;

    open spec fn view(&self) -> Inbox {
        Inbox { id: self.id, queue: notices(self.queue@), connected: self.connected }
    }
}

impl Inbox {
    /// With one more event, as long as there is room for it.
    pub open spec fn offered(self, notice: Notice) -> Inbox {
        if self.queue.len() < MAILBOX_CAPACITY {
            Inbox { queue: self.queue.push(notice), ..self }
        } else {
            self
        }
    }
}

/// Hands events to all who read them.
#[derive(Debug)]
pub struct EventBus {
    pub subscribers: Vec<Mailbox>,
    pub next_id: u64,
}

pub open spec fn inboxes(s: Seq<Mailbox>) -> Seq<Inbox> {
    Seq::new(s.len(), |i: int| s[i]@)
}

/// Tells the inbox of a reader.
pub open spec fn is_inbox(id: u64) -> spec_fn(Inbox) -> bool {
    |b: Inbox| b.id == id
}

/// All inboxes once an event is out: those without a reader are gone.
pub open spec fn delivered(boxes: Seq<Inbox>, notice: Notice) -> Seq<Inbox>
    decreases boxes.len(),
{
    if boxes.len() == 0 {
        seq![]
    } else {
        let before = delivered(boxes.drop_last(), notice);
        if boxes.last().connected {
            before.push(boxes.last().offered(notice))
        } else {
            before
        }
    }
}

impl EventBus {
    /// Readers are told apart.
    pub open spec fn inv(self) -> bool {
        &&& forall|i: int, j: int|
            0 <= i < j < self.subscribers@.len() ==> (#[trigger] self.subscribers@[i]).id != (
            #[trigger] self.subscribers@[j]).id
        &&& forall|i: int|
            0 <= i < self.subscribers@.len() ==> (#[trigger] self.subscribers@[i]).id < self.next_id
    }

    pub fn new() -> (r: Self)
        ensures
            r.inv(),
            inboxes(r.subscribers@) == Seq::<Inbox>::empty(),
            r.next_id == 0,
    {
        let r = EventBus { subscribers: Vec::new(), next_id: 0 };
        assert(inboxes(r.subscribers@) =~= Seq::<Inbox>::empty());
        r
    }

    /// Takes in a reader, and returns the number of its mailbox.
    pub fn subscribe(&mut self) -> (r: u64)
        requires
            old(self).inv(),
            old(self).next_id < u64::MAX,
        ensures
            final(self).inv(),
            r == old(self).next_id,
            final(self).next_id == old(self).next_id + 1,
            inboxes(final(self).subscribers@) == inboxes(old(self).subscribers@).push(
                (Inbox { id: r, queue: Seq::empty(), connected: true }),
            ),
    {
        let id: u64 = self.next_id;
        self.next_id = id + 1;
        let mailbox = Mailbox { id, queue: Vec::new(), connected: true };
        assert(notices(mailbox.queue@) =~= Seq::<Notice>::empty());
        self.subscribers.push(mailbox);
        assert(inboxes(self.subscribers@) =~= inboxes(old(self).subscribers@).push(mailbox@));
        id
    }

    /// Hands an event to all readers. One whose mailbox is full misses it but
    /// stays; those that have gone are removed.
    pub fn publish(&mut self, event: &WmEvent)
        requires
            old(self).inv(),
        ensures
            final(self).inv(),
            final(self).next_id == old(self).next_id,
            inboxes(final(self).subscribers@) == delivered(inboxes(old(self).subscribers@), event@),
    {
        let ghost all = inboxes(self.subscribers@);
        let mut rest: Vec<Mailbox> = Vec::new();
        std::mem::swap(&mut rest, &mut self.subscribers);
        let ghost start = rest@;
        let ghost mut done: int = 0;
        assert(inboxes(self.subscribers@) =~= delivered(all.take(0), event@));
        while rest.len() > 0
            invariant
                self.next_id == old(self).next_id,
                start == old(self).subscribers@,
                old(self).inv(),
                all == inboxes(start),
                0 <= done <= start.len(),
                rest@ == start.skip(done),
                inboxes(self.subscribers@) == delivered(all.take(done), event@),
                forall|k: int|
                    0 <= k < self.subscribers@.len() ==> exists|i: int|
                        0 <= i < done && (#[trigger] self.subscribers@[k]).id == (
                        #[trigger] start[i]).id,
                forall|i: int, j: int|
                    0 <= i < j < self.subscribers@.len() ==> (#[trigger] self.subscribers@[i]).id
                        != (#[trigger] self.subscribers@[j]).id,
            decreases rest.len(),
        {
            let ghost kept = self.subscribers@;
            proof {
                assert(all.take(done + 1).drop_last() =~= all.take(done));
                assert(all.take(done + 1).last() == start[done]@);
                assert(rest@[0] == start[done]);
            }
            let mut mailbox = rest.remove(0);
            assert(rest@ =~= start.skip(done + 1));
            if mailbox.connected {
                let ghost before = mailbox@;
                if mailbox.queue.len() < MAILBOX_CAPACITY {
                    mailbox.queue.push(event.clone());
                    assert(notices(mailbox.queue@) =~= before.queue.push(event@));
                }
                self.subscribers.push(mailbox);
                assert(inboxes(self.subscribers@) =~= inboxes(kept).push(mailbox@));
                assert(self.subscribers@[kept.len() as int].id == start[done].id);
                assert forall|k: int| 0 <= k < kept.len() implies (#[trigger] kept[k]).id
                    != start[done].id by {
                    let i = choose|i: int|
                        0 <= i < done && kept[k].id == (#[trigger] start[i]).id;
                    assert(start[i].id != start[done].id);
                }
                assert forall|k: int| 0 <= k < self.subscribers@.len() implies exists|i: int|
                    0 <= i < done + 1 && (#[trigger] self.subscribers@[k]).id == (
                    #[trigger] start[i]).id by {
                    if k < kept.len() {
                        let i = choose|i: int|
                            0 <= i < done && kept[k].id == (#[trigger] start[i]).id;
                        assert(self.subscribers@[k].id == start[i].id);
                    }
                }
            }
            proof {
                done = done + 1;
            }
        }
        assert(all.take(done) =~= all);
        assert forall|k: int| 0 <= k < self.subscribers@.len() implies (
        #[trigger] self.subscribers@[k]).id < self.next_id by {
            let i = choose|i: int|
                0 <= i < done && self.subscribers@[k].id == (#[trigger] start[i]).id;
        }
    }

    fn find(&self, id: u64) -> (r: Option<usize>)
        ensures
            match r {
                Some(i) => i < self.subscribers@.len() && first_where(
                    inboxes(self.subscribers@),
                    is_inbox(id),
                ) == Some(i as int),
                None => first_where(inboxes(self.subscribers@), is_inbox(id)) is None,
            },
    {
        let ghost all = inboxes(self.subscribers@);
        let ghost p = is_inbox(id);
        let mut i: usize = 0;
        while i < self.subscribers.len()
            invariant
                all == inboxes(self.subscribers@),
                p == is_inbox(id),
                i <= self.subscribers@.len(),
                forall|j: int| 0 <= j < i ==> !p(#[trigger] all[j]),
            decreases self.subscribers.len() - i,
        {
            assert(all[i as int] == self.subscribers@[i as int]@);
            if self.subscribers[i].id == id {
                proof {
                    lemma_first_where(all, p, i as int);
                }
                return Some(i);
            }
            i = i + 1;
        }
        proof {
            lemma_first_where_none(all, p);
        }
        None
    }

    /// Takes the oldest event that waits for a reader.
    pub fn receive(&mut self, id: u64) -> (r: Option<WmEvent>)
        requires
            old(self).inv(),
        ensures
            final(self).inv(),
            final(self).next_id == old(self).next_id,
            match first_where(inboxes(old(self).subscribers@), is_inbox(id)) {
                Some(i) => {
                    let inbox = inboxes(old(self).subscribers@)[i];
                    if inbox.queue.len() > 0 {
                        &&& r matches Some(event) && event@ == inbox.queue[0]
                        &&& inboxes(final(self).subscribers@) == inboxes(
                            old(self).subscribers@,
                        ).update(i, (Inbox { queue: inbox.queue.drop_first(), ..inbox }))
                    } else {
                        r is None && inboxes(final(self).subscribers@) == inboxes(
                            old(self).subscribers@,
                        )
                    }
                },
                None => r is None && inboxes(final(self).subscribers@) == inboxes(
                    old(self).subscribers@,
                ),
            },
    {
        match self.find(id) {
            Some(i) => {
                if self.subscribers[i].queue.len() == 0 {
                    return None;
                }
                let ghost before = self.subscribers@[i as int]@;
                let event = self.subscribers[i].queue.remove(0);
                assert(notices(self.subscribers@[i as int].queue@)
                    =~= before.queue.drop_first());
                assert(inboxes(self.subscribers@) =~= inboxes(old(self).subscribers@).update(
                    i as int,
                    Inbox { queue: before.queue.drop_first(), ..before },
                ));
                Some(event)
            },
            None => None,
        }
    }

    /// Notes that a reader has gone.
    pub fn disconnect(&mut self, id: u64)
        requires
            old(self).inv(),
        ensures
            final(self).inv(),
            final(self).next_id == old(self).next_id,
            match first_where(inboxes(old(self).subscribers@), is_inbox(id)) {
                Some(i) => inboxes(final(self).subscribers@) == inboxes(
                    old(self).subscribers@,
                ).update(
                    i,
                    (Inbox { connected: false, ..inboxes(old(self).subscribers@)[i] }),
                ),
                None => inboxes(final(self).subscribers@) == inboxes(old(self).subscribers@),
            },
    {
        if let Some(i) = self.find(id) {
            let ghost before = self.subscribers@[i as int]@;
            self.subscribers[i].connected = false;
            assert(inboxes(self.subscribers@) =~= inboxes(old(self).subscribers@).update(
                i as int,
                Inbox { connected: false, ..before },
            ));
        }
    }
}

impl Default for EventBus {
    fn default() -> (r: Self)
        ensures
            r.inv(),
            inboxes(r.subscribers@) == Seq::<Inbox>::empty(),
            r.next_id == 0,
    {
        EventBus::new()
    }
}

// --- What the bus promises ---

/// Every reader that is there stays, also with a full mailbox, and gets the
/// event where there is room; a reader that has gone is removed.
pub proof fn law_only_gone_readers_are_removed(boxes: Seq<Inbox>, notice: Notice)
    ensures
        forall|b: Inbox|
            #![trigger boxes.contains(b)]
            boxes.contains(b) && b.connected ==> delivered(boxes, notice).contains(
                b.offered(notice),
            ),
        forall|i: int|
            0 <= i < delivered(boxes, notice).len() ==> (#[trigger] delivered(
                boxes,
                notice,
            )[i]).connected,
    decreases boxes.len(),
{
    if boxes.len() > 0 {
        let rest = boxes.drop_last();
        law_only_gone_readers_are_removed(rest, notice);
        let before = delivered(rest, notice);
        let after = delivered(boxes, notice);
        assert forall|b: Inbox| #![trigger boxes.contains(b)] boxes.contains(b)
            && b.connected implies after.contains(b.offered(notice)) by {
            let i = choose|i: int| 0 <= i < boxes.len() && boxes[i] == b;
            if i < rest.len() {
                assert(rest[i] == b);
                assert(rest.contains(b));
                let k = choose|k: int| 0 <= k < before.len() && before[k] == b.offered(notice);
                assert(after[k] == b.offered(notice));
            } else {
                assert(after[before.len() as int] == b.offered(notice));
            }
        }
        assert forall|i: int| 0 <= i < after.len() implies (#[trigger] after[i]).connected by {
            if i < before.len() {
                assert(after[i] == before[i]);
            }
        }
    } else {
        assert forall|b: Inbox| #![trigger boxes.contains(b)] boxes.contains(b)
            && b.connected implies delivered(boxes, notice).contains(b.offered(notice)) by {}
    }
}

/// The inbox once several events were offered to it.
pub open spec fn offered_all(inbox: Inbox, sent: Seq<Notice>) -> Inbox
    decreases sent.len(),
{
    if sent.len() == 0 {
        inbox
    } else {
        offered_all(inbox, sent.drop_last()).offered(sent.last())
    }
}

/// A reader gets the events in the order in which they were sent, and those
/// first that came first: what waits is what was there before and then the
/// first of the events sent, as many as there is room for.
pub proof fn law_events_arrive_in_order(inbox: Inbox, sent: Seq<Notice>)
    requires
        inbox.queue.len() <= MAILBOX_CAPACITY,
    ensures
        ({
            let room = MAILBOX_CAPACITY - inbox.queue.len();
            let taken = if sent.len() < room { sent.len() as int } else { room };
            offered_all(inbox, sent) == (Inbox { queue: inbox.queue + sent.take(taken), ..inbox })
        }),
    decreases sent.len(),
{
    let room = MAILBOX_CAPACITY - inbox.queue.len();
    let taken = if sent.len() < room { sent.len() as int } else { room };
    if sent.len() == 0 {
        assert(inbox.queue + sent.take(taken) =~= inbox.queue);
    } else {
        let rest = sent.drop_last();
        law_events_arrive_in_order(inbox, rest);
        if sent.len() <= room {
            assert(rest.take(rest.len() as int) =~= rest);
            assert((inbox.queue + rest).push(sent.last()) =~= inbox.queue + sent.take(taken));
        } else {
            assert(rest.take(room) =~= sent.take(room));
        }
    }
}

/// All inboxes once several events are out.
pub open spec fn delivered_all(boxes: Seq<Inbox>, sent: Seq<Notice>) -> Seq<Inbox>
    decreases sent.len(),
{
    if sent.len() == 0 {
        boxes
    } else {
        delivered(delivered_all(boxes, sent.drop_last()), sent.last())
    }
}

proof fn lemma_delivered_to_each(boxes: Seq<Inbox>, notice: Notice)
    requires
        forall|i: int| 0 <= i < boxes.len() ==> (#[trigger] boxes[i]).connected,
    ensures
        delivered(boxes, notice) == Seq::new(boxes.len(), |i: int| boxes[i].offered(notice)),
    decreases boxes.len(),
{
    if boxes.len() > 0 {
        let rest = boxes.drop_last();
        assert forall|i: int| 0 <= i < rest.len() implies (#[trigger] rest[i]).connected by {
            assert(rest[i] == boxes[i]);
        }
        lemma_delivered_to_each(rest, notice);
        assert(boxes[boxes.len() - 1].connected);
    }
    assert(delivered(boxes, notice) =~= Seq::new(
        boxes.len(),
        |i: int| boxes[i].offered(notice),
    ));
}

/// No reader that is there is dropped, however many events are sent, and each
/// is offered all of them in their order, whatever the others do.
pub proof fn law_each_reader_is_offered_everything(boxes: Seq<Inbox>, sent: Seq<Notice>)
    requires
        forall|i: int| 0 <= i < boxes.len() ==> (#[trigger] boxes[i]).connected,
    ensures
        delivered_all(boxes, sent) == Seq::new(
            boxes.len(),
            |i: int| offered_all(boxes[i], sent),
        ),
        forall|i: int| 0 <= i < boxes.len() ==> (#[trigger] offered_all(boxes[i], sent)).connected,
    decreases sent.len(),
{
    if sent.len() > 0 {
        let rest = sent.drop_last();
        law_each_reader_is_offered_everything(boxes, rest);
        let before = delivered_all(boxes, rest);
        assert forall|i: int| 0 <= i < before.len() implies (#[trigger] before[i]).connected by {
            assert(offered_all(boxes[i], rest).connected);
        }
        lemma_delivered_to_each(before, sent.last());
        assert forall|i: int| 0 <= i < boxes.len() implies (#[trigger] offered_all(
            boxes[i],
            sent,
        )).connected by {
            assert(offered_all(boxes[i], rest).connected);
        }
    }
    assert(delivered_all(boxes, sent) =~= Seq::new(
        boxes.len(),
        |i: int| offered_all(boxes[i], sent),
    ));
}

} // verus!
