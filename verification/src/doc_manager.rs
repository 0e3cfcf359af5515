//! Documents: the registry of workers, the worker of one document, and the
//! handle a session holds on a document it has opened.

use crate::doc_id::DocId;
use crate::frame::{presence_views, PresenceFrame, PresenceFrameView};
use crate::json::clone_optional_value;
use crate::moment::Moment;
use std::collections::{HashMap, HashSet};
use vstd::prelude::*;
use vstd::std_specs::iter::IteratorSpec;

verus! {

broadcast use vstd::std_specs::hash::group_hash_axioms;

/// How long a presence entry lives without an update, in seconds.
pub const PRESENCE_LIFETIME_SECONDS: u64 = 30;

/// A session's request to join a document.
#[derive(Debug, PartialEq)]
pub struct OpenRequest {
    pub user: String,
    pub user_info: Option<serde_json::Value>,
}

/// The mathematical value of an [`OpenRequest`].
pub struct OpenRequestView {
    pub user: Seq<char>,
    pub user_info: Option<serde_json::Value>,
}

impl View for OpenRequest {
    type V = OpenRequestView;

    open spec fn view(&self) -> OpenRequestView {
        OpenRequestView { user: self.user@, user_info: self.user_info }
    }
}

/// One client's subscription to one document.
#[derive(Debug, PartialEq)]
pub struct DocHandle {
    doc: DocId,
    id: u32,
    user: String,
    user_info: Option<serde_json::Value>,
}

/// The mathematical value of a [`DocHandle`].
pub struct DocHandleView {
    pub doc: DocId,
    pub id: u32,
    pub user: Seq<char>,
    pub user_info: Option<serde_json::Value>,
}

impl View for DocHandle {
    type V = DocHandleView;

    closed spec fn view(&self) -> DocHandleView {
        DocHandleView { doc: self.doc, id: self.id, user: self.user@, user_info: self.user_info }
    }
}

impl DocHandleView {
    /// The frame that announces `presence` for this handle's client.
    pub open spec fn presence_frame(self, presence: serde_json::Value) -> PresenceFrameView {
        PresenceFrameView {
            client: self.id,
            doc: self.doc,
            user: self.user,
            info: self.user_info,
            presence: Some(presence),
        }
    }
}

impl DocHandle {
    /// The document this handle is on.
    pub fn doc(&self) -> (doc: DocId)
        ensures
            doc == self@.doc,
    {
        self.doc
    }

    /// The client id that the document's worker gave this handle.
    pub fn id(&self) -> (id: u32)
        ensures
            id == self@.id,
    {
        self.id
    }

    /// The user that opened the document.
    pub fn user(&self) -> (user: &String)
        ensures
            user@ == self@.user,
    {
        &self.user
    }

    /// The info of the user that opened the document.
    pub fn user_info(&self) -> (info: &Option<serde_json::Value>)
        ensures
            *info == self@.user_info,
    {
        &self.user_info
    }

    /// Builds the presence frame of this handle's client and stamps it with
    /// `now`. The pair goes to the document's worker.
    pub fn update_presence(&self, presence: serde_json::Value, now: Moment) -> (stamped: (
        Moment,
        PresenceFrame,
    ))
        ensures
            stamped.0 == now,
            stamped.1@ == self@.presence_frame(presence),
    {
        let frame = PresenceFrame {
            client: self.id,
            doc: self.doc,
            user: self.user.clone(),
            info: clone_optional_value(&self.user_info),
            presence: Some(presence),
        };
        (now, frame)
    }
}

/// The latest presence of one client and when it arrived.
#[derive(Debug, PartialEq)]
pub struct PresenceRecord {
    pub last_update: Moment,
    pub frame: PresenceFrame,
}

/// The mathematical value of a [`PresenceRecord`].
pub struct PresenceRecordView {
    pub last_update: Moment,
    pub frame: PresenceFrameView,
}

impl View for PresenceRecord {
    type V = PresenceRecordView;

    open spec fn view(&self) -> PresenceRecordView {
        PresenceRecordView { last_update: self.last_update, frame: self.frame@ }
    }
}

impl PresenceRecordView {
    /// Whether the record is still shown at `now`: it is not older than the
    /// presence lifetime.
    pub open spec fn is_live(self, now: Moment) -> bool {
        !self.last_update.older_than(now, PRESENCE_LIFETIME_SECONDS)
    }
}

/// The clients of `clients` other than `client`, in order.
pub open spec fn peers_of(clients: Seq<u32>, client: u32) -> Seq<u32>
    decreases clients.len(),
{
    if clients.len() == 0 {
        Seq::empty()
    } else if clients.last() == client {
        peers_of(clients.drop_last(), client)
    } else {
        peers_of(clients.drop_last(), client).push(clients.last())
    }
}

/// The keys of the records among `records` that are no longer live at `now`.
pub open spec fn stale_keys(records: Seq<(u32, PresenceRecord)>, now: Moment) -> Seq<u32>
    decreases records.len(),
{
    if records.len() == 0 {
        Seq::empty()
    } else if records.last().1@.is_live(now) {
        stale_keys(records.drop_last(), now)
    } else {
        stale_keys(records.drop_last(), now).push(records.last().0)
    }
}

/// Whether `listing` names each member of `members` once and nobody else. The
/// order of a listing is left open: the worker keeps its clients in a hash map.
pub open spec fn lists(listing: Seq<u32>, members: Set<u32>) -> bool {
    &&& listing.no_duplicates()
    &&& listing.to_set() == members
}

/// Whether `updates` shows the presence table: the frame of each record once,
/// and nothing else, in some order.
pub open spec fn shows(updates: Seq<PresenceFrameView>, presence: Map<u32, PresenceRecordView>) -> bool {
    &&& forall|i: int|
        0 <= i < updates.len() ==> presence.contains_key((#[trigger] updates[i]).client)
            && presence[updates[i].client].frame == updates[i]
    &&& forall|i: int, j: int|
        0 <= i < j < updates.len() ==> (#[trigger] updates[i]).client != (#[trigger] updates[j]).client
    &&& forall|client: u32| #[trigger]
        presence.contains_key(client) ==> exists|i: int|
            0 <= i < updates.len() && (#[trigger] updates[i]).client == client
}

/// A list of presence frames and the clients it is to be offered to. Delivery is
/// best effort: a subscriber that cannot take it now simply misses it.
#[derive(Debug, PartialEq)]
pub struct Fanout {
    pub recipients: Vec<u32>,
    pub updates: Vec<PresenceFrame>,
}

/// The state of one document's worker as mathematics.
pub struct DocWorkerView {
    pub doc: DocId,
    /// The client id that the next handle gets.
    pub next_handle_id: u32,
    /// The subscribed clients.
    pub clients: Set<u32>,
    /// The latest presence of each client that announced one.
    pub presence: Map<u32, PresenceRecordView>,
}

impl DocWorkerView {
    /// The worker of a document nobody has opened yet.
    pub open spec fn initial(doc: DocId) -> DocWorkerView {
        DocWorkerView { doc, next_handle_id: 1, clients: Set::empty(), presence: Map::empty() }
    }

    /// The clients are 1, 2, ... up to the last id given out, and each presence
    /// record is filed under the client it speaks of.
    pub open spec fn wf(self) -> bool {
        &&& self.next_handle_id >= 1
        &&& forall|client: u32| #[trigger]
            self.clients.contains(client) <==> 1 <= client < self.next_handle_id
        &&& forall|client: u32| #[trigger]
            self.presence.contains_key(client) ==> self.presence[client].frame.client == client
    }

    /// The handle that the next open request gets.
    pub open spec fn next_handle(self, request: OpenRequestView) -> DocHandleView {
        DocHandleView {
            doc: self.doc,
            id: self.next_handle_id,
            user: request.user,
            user_info: request.user_info,
        }
    }

    /// The state after one more client joined.
    pub open spec fn opened(self) -> DocWorkerView {
        DocWorkerView {
            next_handle_id: (self.next_handle_id + 1) as u32,
            clients: self.clients.insert(self.next_handle_id),
            ..self
        }
    }

    /// The state after `frame` became the latest presence of its client.
    pub open spec fn updated(self, last_update: Moment, frame: PresenceFrameView) -> DocWorkerView {
        DocWorkerView {
            presence: self.presence.insert(
                frame.client,
                PresenceRecordView { last_update, frame },
            ),
            ..self
        }
    }

    /// The state after the records that are too old at `now` were dropped.
    pub open spec fn ticked(self, now: Moment) -> DocWorkerView {
        DocWorkerView {
            presence: Map::new(
                |client: u32| self.presence.contains_key(client) && self.presence[client].is_live(now),
                |client: u32| self.presence[client],
            ),
            ..self
        }
    }

    /// The state after one event.
    pub open spec fn step(self, event: WorkerEvent) -> DocWorkerView {
        match event {
            WorkerEvent::Open(_) => self.opened(),
            WorkerEvent::Presence(last_update, frame) => self.updated(last_update, frame@),
            WorkerEvent::Tick(now) => self.ticked(now),
            WorkerEvent::Closed => self,
        }
    }

    /// Whether `action` is the worker's answer to `event` in this state.
    pub open spec fn reacts(self, event: WorkerEvent, action: WorkerAction) -> bool {
        match event {
            WorkerEvent::Open(request) => {
                &&& action matches WorkerAction::Reply(handle)
                &&& handle@ == self.next_handle(request@)
            },
            WorkerEvent::Presence(last_update, frame) => {
                &&& action matches WorkerAction::Send(fanout)
                &&& lists(fanout.recipients@, self.clients.remove(frame.client))
                &&& presence_views(fanout.updates@) == seq![frame@]
            },
            WorkerEvent::Tick(now) => match action {
                WorkerAction::Send(fanout) => {
                    &&& fanout.updates@.len() > 0
                    &&& lists(fanout.recipients@, self.clients)
                    &&& shows(presence_views(fanout.updates@), self.ticked(now).presence)
                },
                WorkerAction::Idle => self.ticked(now).presence == Map::<
                    u32,
                    PresenceRecordView,
                >::empty(),
                _ => false,
            },
            WorkerEvent::Closed => action is Exit,
        }
    }

    /// The state after a sequence of events.
    pub open spec fn after(self, events: Seq<WorkerEvent>) -> DocWorkerView
        decreases events.len(),
    {
        if events.len() == 0 {
            self
        } else {
            self.after(events.drop_last()).step(events.last())
        }
    }

    /// Each event makes the next client id grow by at most one, and an open
    /// request by exactly one, as long as ids are left.
    pub proof fn lemma_ids_grow(self, events: Seq<WorkerEvent>)
        requires
            self.wf(),
            self.next_handle_id + events.len() <= u32::MAX,
        ensures
            self.after(events).wf(),
            self.next_handle_id <= self.after(events).next_handle_id <= self.next_handle_id
                + events.len(),
            events.len() > 0 && events.last() is Open ==> self.after(events).next_handle_id
                == self.after(events.drop_last()).next_handle_id + 1,
        decreases events.len(),
    {
        if events.len() > 0 {
            self.lemma_ids_grow(events.drop_last());
        }
    }

    /// The worker of a fresh document numbers its clients 1, 2, ... in the order
    /// of their requests, whatever else happens in between: after a sequence of
    /// events the next id is one more than the number of open requests, and the
    /// clients are exactly the ids given out.
    pub proof fn lemma_opens_are_numbered(doc: DocId, events: Seq<WorkerEvent>)
        requires
            events.len() < u32::MAX,
        ensures
            DocWorkerView::initial(doc).after(events).next_handle_id == 1 + opens_in(events),
            forall|client: u32|
                DocWorkerView::initial(doc).after(events).clients.contains(client) <==> 1 <= client
                    <= opens_in(events),
            DocWorkerView::initial(doc).after(events).doc == doc,
            opens_in(events) <= events.len(),
        decreases events.len(),
    {
        if events.len() > 0 {
            DocWorkerView::lemma_opens_are_numbered(doc, events.drop_last());
            DocWorkerView::initial(doc).lemma_ids_grow(events.drop_last());
        }
        DocWorkerView::initial(doc).lemma_ids_grow(events);
    }

    /// Presence changes neither who is subscribed nor which id is given out
    /// next: an update is offered to the others and the worker goes on, whether
    /// or not they take it.
    pub proof fn lemma_presence_keeps_the_clients(self, event: WorkerEvent)
        requires
            !(event is Open),
        ensures
            self.step(event).clients == self.clients,
            self.step(event).next_handle_id == self.next_handle_id,
            self.step(event).doc == self.doc,
    {
    }

    /// A presence frame is offered to the other clients and never to its sender.
    pub proof fn lemma_no_echo(self, event: WorkerEvent, action: WorkerAction, client: u32)
        requires
            event is Presence,
            self.reacts(event, action),
        ensures
            action is Send,
            action->Send_0.recipients@.contains(client) <==> self.clients.contains(client)
                && client != event->Presence_1.client,
    {
        let listing = action->Send_0.recipients@;
        let sender = event->Presence_1.client;
        assert(listing.to_set().contains(client) <==> self.clients.remove(sender).contains(client));
    }

    /// After a tick exactly the records are left that are not older than the
    /// presence lifetime.
    pub proof fn lemma_tick_keeps_the_live(self, now: Moment, client: u32)
        ensures
            self.ticked(now).presence.contains_key(client) <==> self.presence.contains_key(client)
                && self.presence[client].is_live(now),
            self.ticked(now).presence.contains_key(client) ==> self.ticked(now).presence[client]
                == self.presence[client],
    {
    }

    /// Two clients that join one worker get different client ids: the later one
    /// gets the larger id.
    pub proof fn lemma_handles_are_distinct(
        self,
        events: Seq<WorkerEvent>,
        first: int,
        second: int,
    )
        requires
            self.wf(),
            self.next_handle_id + events.len() <= u32::MAX,
            0 <= first < second < events.len(),
            events[first] is Open,
            events[second] is Open,
        ensures
            self.after(events.take(first)).next_handle(events[first]->Open_0@).id < self.after(
                events.take(second),
            ).next_handle(events[second]->Open_0@).id,
    {
        let upto_first = events.take(first + 1);
        assert(upto_first.drop_last() =~= events.take(first));
        assert(upto_first.last() == events[first]);
        self.lemma_ids_grow(upto_first);
        let middle = events.subrange(first + 1, second);
        self.after(upto_first).lemma_ids_grow(middle);
        self.lemma_after_concat(upto_first, middle);
        assert(upto_first + middle =~= events.take(second));
    }

    /// Running two sequences of events one after the other is running their
    /// concatenation.
    pub proof fn lemma_after_concat(self, head: Seq<WorkerEvent>, tail: Seq<WorkerEvent>)
        ensures
            self.after(head + tail) == self.after(head).after(tail),
        decreases tail.len(),
    {
        if tail.len() == 0 {
            assert(head + tail =~= head);
        } else {
            self.lemma_after_concat(head, tail.drop_last());
            assert((head + tail).drop_last() =~= head + tail.drop_last());
            assert((head + tail).last() == tail.last());
        }
    }
}

/// The worker of one document. It gives out client ids, remembers the latest
/// presence of each client, and decides who is offered which frames.
pub struct DocWorker {
    doc: DocId,
    next_handle_id: u32,
    clients: HashSet<u32>,
    presence: HashMap<u32, PresenceRecord>,
}

impl View for DocWorker {
    type V = DocWorkerView;

    closed spec fn view(&self) -> DocWorkerView {
        DocWorkerView {
            doc: self.doc,
            next_handle_id: self.next_handle_id,
            clients: self.clients@,
            presence: self.presence@.map_values(|record: PresenceRecord| record@),
        }
    }
}

/// What a worker is woken by.
#[derive(Debug, PartialEq)]
pub enum WorkerEvent {
    /// A session asks to join.
    Open(OpenRequest),
    /// A client announced its presence.
    Presence(Moment, PresenceFrame),
    /// The periodic timer fired.
    Tick(Moment),
    /// Nobody can ask to join any more.
    Closed,
}

/// What a worker asks of its caller.
#[derive(Debug, PartialEq)]
pub enum WorkerAction {
    /// Hand this handle to the session that asked.
    Reply(DocHandle),
    /// Offer these frames to these clients.
    Send(Fanout),
    /// Nothing to do.
    Idle,
    /// The worker is done.
    Exit,
}

impl DocWorker {
    /// The worker of a document nobody has opened yet.
    pub fn new(doc: DocId) -> (worker: Self)
        ensures
            worker@ == DocWorkerView::initial(doc),
            worker@.wf(),
    {
        let worker = DocWorker {
            doc,
            next_handle_id: 1,
            clients: HashSet::new(),
            presence: HashMap::new(),
        };
        assert(worker@.presence =~= Map::empty());
        worker
    }

    /// Whether another client can join: client ids are 32 bits wide.
    pub fn can_open(&self) -> (room: bool)
        ensures
            room == (self@.next_handle_id < u32::MAX),
    {
        self.next_handle_id < u32::MAX
    }

    /// Lets one more client join and gives it the next client id.
    pub fn open(&mut self, request: OpenRequest) -> (handle: DocHandle)
        requires
            old(self)@.wf(),
            old(self)@.next_handle_id < u32::MAX,
        ensures
            final(self)@.wf(),
            final(self)@ == old(self)@.opened(),
            handle@ == old(self)@.next_handle(request@),
    {
        let handle = DocHandle {
            doc: self.doc,
            id: self.next_handle_id,
            user: request.user,
            user_info: request.user_info,
        };
        self.clients.insert(self.next_handle_id);
        self.next_handle_id = self.next_handle_id + 1;
        assert(self@.presence =~= old(self)@.presence);
        assert(self@.clients =~= old(self)@.clients.insert(old(self)@.next_handle_id));
        handle
    }

    /// The subscribed clients but `except`, each once.
    fn peers(&self, except: Option<u32>) -> (peers: Vec<u32>)
        ensures
            match except {
                Some(client) => lists(peers@, self@.clients.remove(client)),
                None => lists(peers@, self@.clients),
            },
    {
        let mut peers: Vec<u32> = Vec::new();
        let ghost all = self.clients.iter().remaining().unref();
        for client in iter: self.clients.iter()
            invariant
                iter.seq().unref() == all,
                match except {
                    Some(sender) => peers@ == peers_of(all.take(iter.index() as int), sender),
                    None => peers@ == all.take(iter.index() as int),
                },
        {
            let ghost seen = iter.index() as int;
            assert(all.take(seen + 1).drop_last() =~= all.take(seen));
            assert(all.take(seen + 1).last() == *client);
            let skip = match except {
                Some(sender) => *client == sender,
                None => false,
            };
            if !skip {
                peers.push(*client);
            }
            assert(except is None ==> peers@ =~= all.take(seen + 1));
        }
        proof {
            assert(all.take(all.len() as int) =~= all);
            assert(all.no_duplicates());
            assert(all.to_set() == self.clients@);
            match except {
                Some(sender) => {
                    lemma_peers_keep_apart(all, sender);
                    assert forall|client: u32|
                        peers@.to_set().contains(client) <==> self.clients@.remove(sender).contains(
                            client,
                        ) by {
                        lemma_peers_are_the_others(all, sender, client);
                        assert(all.to_set().contains(client) <==> all.contains(client));
                    }
                    assert(peers@.to_set() =~= self.clients@.remove(sender));
                },
                None => {},
            }
        }
        peers
    }

    /// Records `frame` as the latest presence of its client and offers it to
    /// every other client.
    pub fn update(&mut self, last_update: Moment, frame: PresenceFrame) -> (fanout: Fanout)
        requires
            old(self)@.wf(),
        ensures
            final(self)@.wf(),
            final(self)@ == old(self)@.updated(last_update, frame@),
            lists(fanout.recipients@, old(self)@.clients.remove(frame.client)),
            presence_views(fanout.updates@) == seq![frame@],
    {
        let client = frame.client;
        let recipients = self.peers(Some(client));
        let mut updates: Vec<PresenceFrame> = Vec::new();
        updates.push(frame.clone());
        assert(presence_views(updates@) =~= seq![frame@]);
        let record = PresenceRecord { last_update, frame };
        self.presence.insert(client, record);
        assert(self@.presence =~= old(self)@.presence.insert(client, record@));
        Fanout { recipients, updates }
    }

    /// The clients whose presence is no longer live at `now`.
    fn stale(&self, now: Moment) -> (stale: Vec<u32>)
        ensures
            forall|client: u32|
                stale@.contains(client) <==> self@.presence.contains_key(client)
                    && !self@.presence[client].is_live(now),
    {
        let mut stale: Vec<u32> = Vec::new();
        let ghost all = self.presence.iter().remaining().unref();
        for entry in iter: self.presence.iter()
            invariant
                iter.seq().unref() == all,
                stale@ == stale_keys(all.take(iter.index() as int), now),
        {
            let ghost seen = iter.index() as int;
            assert(all.take(seen + 1).drop_last() =~= all.take(seen));
            assert(all.take(seen + 1).last() == (*entry.0, *entry.1));
            if entry.1.last_update.is_older_than(now, PRESENCE_LIFETIME_SECONDS) {
                stale.push(*entry.0);
            }
        }
        proof {
            assert(all.take(all.len() as int) =~= all);
            let table = self.presence@;
            let listed = self.presence.iter().remaining();
            assert forall|client: u32|
                stale@.contains(client) <==> self@.presence.contains_key(client)
                    && !self@.presence[client].is_live(now) by {
                lemma_stale_keys_are_the_stale(all, now, client);
                if table.contains_key(client) {
                    assert(listed.contains((&client, &table[client])));
                    let i = choose|i: int|
                        0 <= i < listed.len() && listed[i] == (&client, &table[client]);
                    assert(all[i] == (client, table[client]));
                }
                if exists|i: int| 0 <= i < all.len() && all[i].0 == client {
                    let i = choose|i: int| 0 <= i < all.len() && all[i].0 == client;
                    assert(table.contains_key(*listed[i].0));
                    assert(table[*listed[i].0] == *listed[i].1);
                }
            }
        }
        stale
    }

    /// The frame of each presence record, each once.
    fn snapshot(&self) -> (updates: Vec<PresenceFrame>)
        requires
            self@.wf(),
        ensures
            shows(presence_views(updates@), self@.presence),
            updates@.len() == 0 <==> self@.presence == Map::<u32, PresenceRecordView>::empty(),
    {
        let mut updates: Vec<PresenceFrame> = Vec::new();
        let ghost all = self.presence.iter().remaining().unref();
        for entry in iter: self.presence.iter()
            invariant
                iter.seq().unref() == all,
                updates@.len() == iter.index(),
                forall|i: int| 0 <= i < updates@.len() ==> (#[trigger] updates@[i])@ == all[i].1@.frame,
        {
            let ghost seen = iter.index() as int;
            assert(all[seen] == (*entry.0, *entry.1));
            updates.push(entry.1.frame.clone());
        }
        proof {
            let table = self.presence@;
            let listed = self.presence.iter().remaining();
            let views = presence_views(updates@);
            assert(listed.no_duplicates());
            assert forall|i: int| 0 <= i < views.len() implies self@.presence.contains_key(
                (#[trigger] views[i]).client,
            ) && self@.presence[views[i].client].frame == views[i] && views[i].client == all[i].0 by {
                assert(table.contains_key(*listed[i].0));
                assert(table[*listed[i].0] == *listed[i].1);
                assert(self@.presence.contains_key(all[i].0));
            }
            assert forall|i: int, j: int| 0 <= i < j < views.len() implies (#[trigger] views[i]).client
                != (#[trigger] views[j]).client by {
                if views[i].client == views[j].client {
                    assert(table[*listed[i].0] == *listed[i].1);
                    assert(table[*listed[j].0] == *listed[j].1);
                    assert(listed[i] == listed[j]);
                }
            }
            assert forall|client: u32| #[trigger] self@.presence.contains_key(client) implies exists|
                i: int,
            |
                0 <= i < views.len() && (#[trigger] views[i]).client == client by {
                assert(table.contains_key(client));
                assert(listed.contains((&client, &table[client])));
                let i = choose|i: int|
                    0 <= i < listed.len() && listed[i] == (&client, &table[client]);
                assert(views[i].client == client);
            }
            if updates@.len() == 0 {
                assert(self@.presence =~= Map::<u32, PresenceRecordView>::empty());
            } else {
                assert(self@.presence.contains_key(views[0].client));
            }
        }
        updates
    }

    /// Drops the presence records that are too old at `now`. If any remain, all
    /// of them are offered to every client.
    pub fn tick(&mut self, now: Moment) -> (fanout: Option<Fanout>)
        requires
            old(self)@.wf(),
        ensures
            final(self)@.wf(),
            final(self)@ == old(self)@.ticked(now),
            match fanout {
                Some(fanout) => {
                    &&& fanout.updates@.len() > 0
                    &&& lists(fanout.recipients@, old(self)@.clients)
                    &&& shows(presence_views(fanout.updates@), final(self)@.presence)
                },
                None => final(self)@.presence == Map::<u32, PresenceRecordView>::empty(),
            },
    {
        let stale = self.stale(now);
        let ghost before = self.presence@;
        let mut i: usize = 0;
        while i < stale.len()
            invariant
                i <= stale.len(),
                self.doc == old(self).doc,
                self.next_handle_id == old(self).next_handle_id,
                self.clients == old(self).clients,
                forall|client: u32|
                    #![trigger before.contains_key(client)]
                    #![trigger self.presence@.contains_key(client)]
                    self.presence@.contains_key(client) <==> (before.contains_key(client)
                        && !stale@.take(i as int).contains(client)),
                forall|client: u32| #[trigger]
                    self.presence@.contains_key(client) ==> self.presence@[client] == before[client],
            decreases stale.len() - i,
        {
            let ghost seen = stale@.take(i as int);
            let ghost next = stale@.take(i as int + 1);
            proof {
                assert(next =~= seen.push(stale@[i as int]));
                assert forall|client: u32|
                    #![trigger next.contains(client)]
                    #![trigger seen.contains(client)]
                    next.contains(client) <==> (seen.contains(client) || client == stale@[i as int]) by {
                    if seen.contains(client) {
                        let j = choose|j: int| 0 <= j < seen.len() && seen[j] == client;
                        assert(next[j] == client);
                    }
                    if client == stale@[i as int] {
                        assert(next[i as int] == client);
                    }
                }
            }
            self.presence.remove(&stale[i]);
            i += 1;
        }
        proof {
            assert(stale@.take(stale.len() as int) =~= stale@);
            assert(self@.presence =~= old(self)@.ticked(now).presence);
        }
        let updates = self.snapshot();
        if updates.len() > 0 {
            let recipients = self.peers(None);
            Some(Fanout { recipients, updates })
        } else {
            None
        }
    }
}

impl DocWorker {
    /// Handles one event.
    pub fn step(&mut self, event: WorkerEvent) -> (action: WorkerAction)
        requires
            old(self)@.wf(),
            event is Open ==> old(self)@.next_handle_id < u32::MAX,
        ensures
            final(self)@.wf(),
            final(self)@ == old(self)@.step(event),
            old(self)@.reacts(event, action),
    {
        match event {
            WorkerEvent::Open(request) => WorkerAction::Reply(self.open(request)),
            WorkerEvent::Presence(last_update, frame) => WorkerAction::Send(
                self.update(last_update, frame),
            ),
            WorkerEvent::Tick(now) => match self.tick(now) {
                Some(fanout) => WorkerAction::Send(fanout),
                None => WorkerAction::Idle,
            },
            WorkerEvent::Closed => WorkerAction::Exit,
        }
    }
}

/// Runs the worker of `doc` over a recorded sequence of events, from the first
/// event up to and including the first `Closed`, and returns what it asked for
/// at each event.
pub fn doc_worker(doc: DocId, events: Vec<WorkerEvent>) -> (actions: Vec<WorkerAction>)
    requires
        events.len() < u32::MAX,
    ensures
        actions.len() <= events.len(),
        forall|i: int|
            0 <= i < actions.len() ==> DocWorkerView::initial(doc).after(
                events@.take(i),
            ).reacts(events[i], #[trigger] actions[i]),
        forall|i: int| 0 <= i < actions.len() - 1 ==> !(#[trigger] events[i] is Closed),
        actions.len() < events.len() ==> actions.len() > 0 && events[actions.len() - 1] is Closed,
{
    let mut worker = DocWorker::new(doc);
    let mut actions: Vec<WorkerAction> = Vec::new();
    let ghost start = DocWorkerView::initial(doc);
    let ghost script = events@;
    for event in iter: events
        invariant
            iter.seq() == script,
            script.len() < u32::MAX,
            start == DocWorkerView::initial(doc),
            actions.len() == iter.index(),
            worker@ == start.after(script.take(iter.index() as int)),
            worker@.wf(),
            worker@.next_handle_id <= 1 + iter.index(),
            forall|i: int|
                0 <= i < actions.len() ==> start.after(script.take(i)).reacts(
                    script[i],
                    #[trigger] actions[i],
                ),
            forall|i: int| 0 <= i < actions.len() ==> !(#[trigger] script[i] is Closed),
    {
        let ghost seen = actions.len() as int;
        assert(script.take(seen + 1).drop_last() =~= script.take(seen));
        assert(script.take(seen + 1).last() == event);
        let closed = matches!(event, WorkerEvent::Closed);
        let action = worker.step(event);
        actions.push(action);
        if closed {
            return actions;
        }
    }
    actions
}

/// What happened to a session's attempt to join a document.
#[derive(Debug, PartialEq)]
pub enum OpenEvent {
    /// The session asks to join.
    Start,
    /// The request could not be handed to the worker: it had gone.
    SendFailed,
    /// The worker went away without answering.
    ReplyDropped,
    /// The worker answered.
    Replied(DocHandle),
}

/// What the registry asks of its caller during an open.
#[derive(Debug, PartialEq)]
pub enum OpenStep {
    /// Hand the request to the document's worker; start the worker first where
    /// `spawn` is set.
    Ask { spawn: bool },
    /// The document is open.
    Done(DocHandle),
}

/// The registry of documents that have a worker.
pub struct DocManager {
    opens: HashSet<u128>,
}

impl View for DocManager {
    type V = Set<DocId>;

    closed spec fn view(&self) -> Set<DocId> {
        Set::new(|doc: DocId| self.opens@.contains(doc.0))
    }
}

/// Whether a request for `doc` has to start a worker: none is registered, or the
/// registered one has gone.
pub open spec fn must_spawn(registered: Set<DocId>, doc: DocId, worker_gone: bool) -> bool {
    !registered.contains(doc) || worker_gone
}

/// The registry after a sequence of requests, each a document and whether its
/// registered worker had gone.
pub open spec fn registered_after(registered: Set<DocId>, requests: Seq<(DocId, bool)>) -> Set<
    DocId,
>
    decreases requests.len(),
{
    if requests.len() == 0 {
        registered
    } else {
        registered_after(registered, requests.drop_last()).insert(requests.last().0)
    }
}

/// Once a document has a worker, every later request for it asks that worker as
/// long as the worker lives, whatever was requested in between: a document never
/// has two workers.
pub proof fn lemma_one_worker_per_document(
    registered: Set<DocId>,
    doc: DocId,
    between: Seq<(DocId, bool)>,
)
    ensures
        !must_spawn(registered_after(registered.insert(doc), between), doc, false),
    decreases between.len(),
{
    if between.len() > 0 {
        lemma_one_worker_per_document(registered, doc, between.drop_last());
    }
}

impl DocManager {
    /// A registry without documents.
    pub fn new() -> (manager: Self)
        ensures
            manager@ == Set::<DocId>::empty(),
    {
        let manager = DocManager { opens: HashSet::new() };
        assert(manager@ =~= Set::<DocId>::empty());
        manager
    }

    /// Whether `doc` has a registered worker.
    pub fn is_registered(&self, doc: DocId) -> (registered: bool)
        ensures
            registered == self@.contains(doc),
    {
        self.opens.contains(&doc.0)
    }

    /// Finds or registers the worker of `doc`. `worker_gone` says whether the
    /// registered worker, if there is one, has exited. The result tells whether
    /// a new worker has to be started.
    pub fn claim(&mut self, doc: DocId, worker_gone: bool) -> (spawn: bool)
        ensures
            spawn == must_spawn(old(self)@, doc, worker_gone),
            final(self)@ == old(self)@.insert(doc),
    {
        let known = self.opens.contains(&doc.0);
        if !known {
            self.opens.insert(doc.0);
        }
        assert(self@ =~= old(self)@.insert(doc));
        !known || worker_gone
    }

    /// One turn of opening `doc`: a worker's answer ends the open, anything else
    /// (the start, a request that could not be handed over, an answer that never
    /// came) finds or registers the worker and asks it.
    pub fn open(&mut self, doc: DocId, event: OpenEvent, worker_gone: bool) -> (step: OpenStep)
        ensures
            match event {
                OpenEvent::Replied(handle) => step == OpenStep::Done(handle) && final(self)@ == old(
                    self,
                )@,
                _ => step == (OpenStep::Ask { spawn: must_spawn(old(self)@, doc, worker_gone) })
                    && final(self)@ == old(self)@.insert(doc),
            },
    {
        match event {
            OpenEvent::Replied(handle) => OpenStep::Done(handle),
            _ => OpenStep::Ask { spawn: self.claim(doc, worker_gone) },
        }
    }
}

/// The number of open requests among a sequence of events.
pub open spec fn opens_in(events: Seq<WorkerEvent>) -> nat
    decreases events.len(),
{
    if events.len() == 0 {
        0
    } else if events.last() is Open {
        opens_in(events.drop_last()) + 1
    } else {
        opens_in(events.drop_last())
    }
}

/// Leaving one client out of a listing names every other client of it.
pub proof fn lemma_peers_are_the_others(clients: Seq<u32>, sender: u32, client: u32)
    ensures
        peers_of(clients, sender).contains(client) <==> clients.contains(client) && client
            != sender,
    decreases clients.len(),
{
    if clients.len() > 0 {
        let rest = clients.drop_last();
        lemma_peers_are_the_others(rest, sender, client);
        let peers = peers_of(clients, sender);
        let before = peers_of(rest, sender);
        if clients.contains(client) && client != sender {
            let i = choose|i: int| 0 <= i < clients.len() && clients[i] == client;
            if i < rest.len() {
                assert(rest[i] == client);
                let k = choose|k: int| 0 <= k < before.len() && before[k] == client;
                assert(peers[k] == client);
            } else {
                assert(peers[peers.len() - 1] == client);
            }
        }
        if peers.contains(client) {
            let k = choose|k: int| 0 <= k < peers.len() && peers[k] == client;
            if k < before.len() {
                assert(before[k] == client);
                let i = choose|i: int| 0 <= i < rest.len() && rest[i] == client;
                assert(clients[i] == client);
            } else {
                assert(clients[clients.len() - 1] == client);
            }
        }
    }
}

/// Leaving one client out of a listing without repetitions leaves a listing
/// without repetitions.
pub proof fn lemma_peers_keep_apart(clients: Seq<u32>, sender: u32)
    requires
        clients.no_duplicates(),
    ensures
        peers_of(clients, sender).no_duplicates(),
    decreases clients.len(),
{
    if clients.len() > 0 {
        let rest = clients.drop_last();
        let last = clients.last();
        lemma_peers_keep_apart(rest, sender);
        lemma_peers_are_the_others(rest, sender, last);
        if rest.contains(last) {
            let i = choose|i: int| 0 <= i < rest.len() && rest[i] == last;
            assert(clients[i] == clients[clients.len() - 1]);
        }
    }
}

/// The keys taken from a sequence of records are those of the records that are
/// no longer live.
pub proof fn lemma_stale_keys_are_the_stale(
    records: Seq<(u32, PresenceRecord)>,
    now: Moment,
    client: u32,
)
    ensures
        stale_keys(records, now).contains(client) <==> exists|i: int|
            0 <= i < records.len() && (#[trigger] records[i]).0 == client && !records[i].1@.is_live(
                now,
            ),
    decreases records.len(),
{
    if records.len() > 0 {
        let rest = records.drop_last();
        lemma_stale_keys_are_the_stale(rest, now, client);
        let stale = stale_keys(records, now);
        let before = stale_keys(rest, now);
        if stale.contains(client) {
            let k = choose|k: int| 0 <= k < stale.len() && stale[k] == client;
            if k < before.len() {
                assert(before[k] == client);
                let i = choose|i: int|
                    0 <= i < rest.len() && (#[trigger] rest[i]).0 == client && !rest[i].1@.is_live(now);
                assert(records[i].0 == client);
            } else {
                assert(records[records.len() - 1].0 == client);
            }
        }
        if exists|i: int|
            0 <= i < records.len() && (#[trigger] records[i]).0 == client && !records[i].1@.is_live(
                now,
            ) {
            let i = choose|i: int|
                0 <= i < records.len() && (#[trigger] records[i]).0 == client && !records[i].1@.is_live(
                    now,
                );
            if i < rest.len() {
                assert(rest[i].0 == client);
                let k = choose|k: int| 0 <= k < before.len() && before[k] == client;
                assert(stale[k] == client);
            } else {
                assert(stale[stale.len() - 1] == client);
            }
        }
    }
}

} // verus!
