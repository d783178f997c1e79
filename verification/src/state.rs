//! The whole state of the chat engine: the rooms, the message record and the
//! live channel, with what ties them together.

use vstd::prelude::*;
use crate::broadcaster::Broadcaster;
use crate::channel::{Channel, Published};
use crate::message::{Message, MessageView};
use crate::registry::{Registry, RoomRegistry};
use crate::store::{Archive, MessageStore};

verus! {

/// How many publications the live channel holds unless told otherwise.
pub const DEFAULT_CAPACITY: usize = 10;

/// The mathematical model of the engine.
pub struct ChatState {
    pub rooms: Registry,
    pub archive: Archive,
    pub channel: Channel<MessageView>,
}

impl ChatState {
    /// Every message on record belongs to a room that exists.
    pub open spec fn rooted(self) -> bool {
        forall|i: int|
            0 <= i < self.archive.log.len() ==> self.rooms.has_room(
                (#[trigger] self.archive.log[i]).room_id,
            )
    }

    /// Whatever went out live had been put on record before: it carries an id
    /// that the record has assigned.
    pub open spec fn recorded_first(self) -> bool {
        forall|k: int|
            0 <= k < self.channel.log.len() ==> 1 <= (#[trigger] self.channel.log[k]).payload.id
                < self.archive.next_id
    }

    /// The live channel has sent out nothing but what it had sent out in
    /// `self` and, after that, `added`.
    pub open spec fn live_grown_by(self, later: ChatState, added: Seq<Published<MessageView>>)
        -> bool {
        later.channel.log =~= self.channel.log + added
    }

    /// The record holds nothing but what it held in `self` and, after that,
    /// `added`.
    pub open spec fn record_grown_by(self, later: ChatState, added: Seq<MessageView>) -> bool {
        later.archive.log =~= self.archive.log + added
    }

    /// Whatever went out live stays recorded first where ids are only ever
    /// given out, never taken back, and what goes out in addition carries an
    /// id that was given out.
    pub proof fn lemma_recorded_first_kept(
        self,
        later: ChatState,
        added: Seq<Published<MessageView>>,
    )
        requires
            self.recorded_first(),
            self.live_grown_by(later, added),
            self.archive.next_id <= later.archive.next_id,
            forall|k: int|
                0 <= k < added.len() ==> later.archive.has_assigned((#[trigger] added[k]).payload.id),
        ensures
            later.recorded_first(),
    {
        assert forall|k: int| 0 <= k < later.channel.log.len() implies 1 <= (
        #[trigger] later.channel.log[k]).payload.id < later.archive.next_id by {
            if k < self.channel.log.len() {
                assert(later.channel.log[k] == self.channel.log[k]);
            } else {
                assert(later.channel.log[k] == added[k - self.channel.log.len()]);
            }
        }
    }

    /// Every message on record stays in a room that exists where no room
    /// goes away and what is recorded in addition belongs to a room that
    /// exists.
    pub proof fn lemma_rooted_kept(self, later: ChatState, added: Seq<MessageView>)
        requires
            self.rooted(),
            self.record_grown_by(later, added),
            forall|id: int| self.rooms.has_room(id) ==> later.rooms.has_room(id),
            forall|k: int| 0 <= k < added.len() ==> later.rooms.has_room((#[trigger] added[k]).room_id),
        ensures
            later.rooted(),
    {
        assert forall|i: int| 0 <= i < later.archive.log.len() implies later.rooms.has_room(
            (#[trigger] later.archive.log[i]).room_id,
        ) by {
            if i < self.archive.log.len() {
                assert(later.archive.log[i] == self.archive.log[i]);
                assert(self.rooms.has_room(self.archive.log[i].room_id));
            } else {
                assert(later.archive.log[i] == added[i - self.archive.log.len()]);
            }
        }
    }

    /// What holds of the engine in every reachable state.
    pub open spec fn inv(self) -> bool {
        &&& self.rooms.inv()
        &&& self.archive.inv()
        &&& self.channel.inv()
        &&& self.rooted()
        &&& self.recorded_first()
    }
}

/// The engine: a room registry, a message record and a broadcaster. They
/// are changed through the requests that the engine serves, and through
/// nothing else, so that what ties them together cannot be undone.
pub struct AppState {
    pub(crate) rooms: RoomRegistry,
    pub(crate) messages: MessageStore,
    pub(crate) queue: Broadcaster<Message>,
}

impl AppState {
    /// What the engine holds.
    pub open(crate) spec fn view(&self) -> ChatState {
        ChatState { rooms: self.rooms@, archive: self.messages@, channel: self.queue@ }
    }

    /// The engine is consistent: each part is, and so is the whole.
    pub open(crate) spec fn wf(&self) -> bool {
        &&& self.rooms.wf()
        &&& self.messages.wf()
        &&& self.queue.wf()
        &&& self@.rooted()
        &&& self@.recorded_first()
    }

    /// The rooms, to look at.
    pub fn rooms(&self) -> (rooms: &RoomRegistry)
        requires
            self.wf(),
        ensures
            rooms.wf(),
            rooms@ == self@.rooms,
    {
        &self.rooms
    }

    /// The record of messages, to look at.
    pub fn messages(&self) -> (messages: &MessageStore)
        requires
            self.wf(),
        ensures
            messages.wf(),
            messages@ == self@.archive,
    {
        &self.messages
    }

    /// The broadcaster of the live channel, to look at.
    pub fn queue(&self) -> (queue: &Broadcaster<Message>)
        requires
            self.wf(),
        ensures
            queue.wf(),
            queue@ == self@.channel,
    {
        &self.queue
    }

    /// A consistent engine is in a reachable state.
    pub proof fn lemma_consistent(&self)
        requires
            self.wf(),
        ensures
            self@.inv(),
    {
        self.rooms.lemma_consistent();
        self.messages.lemma_consistent();
        self.queue.lemma_consistent();
    }

    /// Makes an engine without rooms, messages or subscriptions, whose live
    /// channel holds at most `capacity` publications.
    pub fn new(capacity: usize) -> (state: AppState)
        requires
            capacity >= 1,
        ensures
            state.wf(),
            state@.rooms == Registry::empty(),
            state@.archive == Archive::empty(),
            state@.channel == Channel::<MessageView>::empty(capacity as nat),
    {
        AppState {
            rooms: RoomRegistry::new(),
            messages: MessageStore::new(),
            queue: Broadcaster::new(capacity),
        }
    }
}

} // verus!
