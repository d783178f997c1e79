//! Posting a message, reading a room's history, and subscribing to the live
//! stream.

use vstd::prelude::*;
use crate::broadcaster::{delivers, Delivery, SubscriptionHandle};
use crate::channel::Published;
use crate::clock::utc_now_micros;
use crate::error::ChatError;
use crate::message::{Message, MessageView, NewMessage, NewMessageView, Payload};
use crate::query::{id_value, required_id};
use crate::scope::ChannelScope;
use crate::state::{AppState, ChatState};
use crate::store::{ascending, views};
use crate::subscription::{stepped, Action, Event, SubscriptionManager};

verus! {

impl ChatState {
    /// The engine after a request to post `request` at time `timestamp`.
    ///
    /// Where the room does not exist nothing changes. Otherwise the sender
    /// joins the room; then, unless the ids of the record have run out, the
    /// message goes on record and after that out on the live channel, under
    /// the global scope.
    pub open spec fn after_send(self, request: NewMessageView, timestamp: int) -> ChatState {
        if !self.rooms.has_room(request.room_id) {
            self
        } else {
            let rooms = self.rooms.with_participant(request.room_id, request.sender);
            if self.archive.is_full() {
                ChatState { rooms, ..self }
            } else {
                let message = self.archive.stamped(
                    request.sender,
                    request.message,
                    request.room_id,
                    timestamp,
                );
                ChatState {
                    rooms,
                    archive: self.archive.appended(message),
                    channel: self.channel.publish(ChannelScope::Global, message),
                }
            }
        }
    }

    /// The engine after the first part of a request to post: the sender has
    /// joined the room and the message is on record, but nothing has gone out
    /// live yet.
    pub open spec fn after_persist(self, request: NewMessageView, timestamp: int) -> ChatState {
        ChatState { channel: self.channel, ..self.after_send(request, timestamp) }
    }

    /// The engine after `message` was sent out live under the global scope.
    /// Only what is on record goes out: a message that the record does not
    /// hold, field for field, changes nothing.
    pub open spec fn after_announce(self, message: MessageView) -> ChatState {
        if self.archive.log.contains(message) {
            ChatState { channel: self.channel.publish(ChannelScope::Global, message), ..self }
        } else {
            self
        }
    }

    /// What sending `message` out live is answered with: the number of
    /// subscriptions that observe it, `NotFound` where the record does not
    /// hold it, `ChannelClosed` after a shutdown.
    pub open spec fn announce_reply(self, message: MessageView) -> Result<nat, ChatError> {
        if !self.archive.log.contains(message) {
            Err(ChatError::NotFound)
        } else if self.channel.closed {
            Err(ChatError::ChannelClosed)
        } else {
            Ok(self.channel.audience(ChannelScope::Global))
        }
    }

    /// What a request to post `request` at time `timestamp` is answered with:
    /// the message as it went on record, `NotFound` where the room does not
    /// exist, `StoreError` where the record took nothing.
    pub open spec fn send_reply(self, request: NewMessageView, timestamp: int) -> Result<
        MessageView,
        ChatError,
    > {
        if !self.rooms.has_room(request.room_id) {
            Err(ChatError::NotFound)
        } else if self.archive.is_full() {
            Err(ChatError::StoreError)
        } else {
            Ok(self.archive.stamped(request.sender, request.message, request.room_id, timestamp))
        }
    }

    /// Persisting keeps the engine consistent, and what it puts on record is
    /// on record afterwards.
    pub proof fn lemma_after_persist(self, request: NewMessageView, timestamp: int)
        requires
            self.inv(),
        ensures
            self.after_persist(request, timestamp).inv(),
            self.send_reply(request, timestamp) is Ok ==> self.after_persist(
                request,
                timestamp,
            ).archive.log.contains(self.send_reply(request, timestamp).unwrap()),
    {
        let after = self.after_persist(request, timestamp);
        if self.rooms.has_room(request.room_id) {
            self.rooms.lemma_with_participant(request.room_id, request.sender);
            if !self.archive.is_full() {
                let message = self.archive.stamped(
                    request.sender,
                    request.message,
                    request.room_id,
                    timestamp,
                );
                self.archive.lemma_appended(message);
                self.lemma_rooted_kept(after, seq![message]);
                assert(after.archive.log[self.archive.log.len() as int] == message);
            } else {
                self.lemma_rooted_kept(after, Seq::empty());
            }
            self.lemma_recorded_first_kept(after, Seq::empty());
        }
    }

    /// Announcing keeps the engine consistent.
    pub proof fn lemma_after_announce(self, message: MessageView)
        requires
            self.inv(),
        ensures
            self.after_announce(message).inv(),
    {
        let after = self.after_announce(message);
        if self.archive.log.contains(message) {
            self.channel.lemma_publish_keeps_inv(ChannelScope::Global, message);
            let at = choose|at: int| 0 <= at < self.archive.log.len() && self.archive.log[at] == message;
            assert(self.archive.has_assigned(self.archive.log[at].id));
            if after.channel.log == self.channel.log {
                self.lemma_recorded_first_kept(after, Seq::empty());
            } else {
                self.lemma_recorded_first_kept(
                    after,
                    seq![Published { scope: ChannelScope::Global, payload: message }],
                );
            }
        }
    }

    /// Posting is persisting and then announcing what was persisted.
    pub proof fn lemma_send_in_two_parts(self, request: NewMessageView, timestamp: int)
        requires
            self.inv(),
        ensures
            match self.send_reply(request, timestamp) {
                Ok(message) => self.after_send(request, timestamp) == self.after_persist(
                    request,
                    timestamp,
                ).after_announce(message),
                Err(_) => self.after_send(request, timestamp) == self.after_persist(
                    request,
                    timestamp,
                ),
            },
    {
        self.lemma_after_persist(request, timestamp);
    }

    /// Posting keeps the engine consistent.
    pub proof fn lemma_after_send(self, request: NewMessageView, timestamp: int)
        requires
            self.inv(),
        ensures
            self.after_send(request, timestamp).inv(),
    {
        self.lemma_after_persist(request, timestamp);
        self.lemma_send_in_two_parts(request, timestamp);
        match self.send_reply(request, timestamp) {
            Ok(message) => {
                self.after_persist(request, timestamp).lemma_after_announce(message);
            },
            Err(_) => {},
        }
    }
}

/// Whether `reply` is the message or the refusal that the model gives.
pub open spec fn replies(reply: Result<Message, ChatError>, expected: Result<MessageView, ChatError>)
    -> bool {
    match reply {
        Ok(message) => expected == Ok::<MessageView, ChatError>(message@),
        Err(error) => expected == Err::<MessageView, ChatError>(error),
    }
}

/// Says what posting `new_message`, stamped with `timestamp`, would be
/// answered with, and changes nothing: the message with the id that it would
/// get, or the refusal.
pub fn preview_send_at(state: &AppState, new_message: &NewMessage, timestamp: i64) -> (reply:
    Result<Message, ChatError>)
    requires
        state.wf(),
    ensures
        replies(reply, state@.send_reply(new_message@, timestamp as int)),
{
    if !state.rooms.contains(new_message.room_id) {
        return Err(ChatError::NotFound);
    }
    match state.messages.next_id() {
        Some(id) => Ok(
            Message {
                id,
                timestamp,
                sender: new_message.sender.clone(),
                message: new_message.message.clone(),
                room_id: new_message.room_id,
            },
        ),
        None => Err(ChatError::StoreError),
    }
}

/// Does the first part of posting a message, stamped with `timestamp`: the
/// sender joins the room and the message goes on record. Nothing goes out
/// live; that is for [`announce`] to do, once the message is safe.
///
/// Fails with `NotFound`, and changes nothing, if the room does not exist.
/// Fails with `StoreError` if the record takes nothing more; the sender has
/// joined the room by then.
pub fn persist_at(state: &mut AppState, new_message: NewMessage, timestamp: i64) -> (reply: Result<
    Message,
    ChatError,
>)
    requires
        old(state).wf(),
    ensures
        final(state).wf(),
        final(state)@ == old(state)@.after_persist(new_message@, timestamp as int),
        replies(reply, old(state)@.send_reply(new_message@, timestamp as int)),
{
    proof {
        state.lemma_consistent();
        state@.lemma_after_persist(new_message@, timestamp as int);
    }
    let NewMessage { sender, message, room_id } = new_message;
    if !state.rooms.contains(room_id) {
        return Err(ChatError::NotFound);
    }
    let _ = state.rooms.add_participant(room_id, &sender);
    state.messages.append(&state.rooms, sender, message, room_id, timestamp)
}

/// Does the first part of posting a message, stamped with the time of the
/// system clock.
///
/// This is [`persist_at`] with a timestamp that the clock decides: whatever
/// it reads, the outcome is the one that `persist_at` gives for that reading.
/// Reading the clock panics on a machine whose clock is set before 1970;
/// `persist_at` takes the time from its caller instead.
pub fn persist(state: &mut AppState, new_message: NewMessage) -> (reply: Result<Message, ChatError>)
    requires
        old(state).wf(),
    ensures
        final(state).wf(),
        exists|timestamp: i64|
            final(state)@ == #[trigger] old(state)@.after_persist(new_message@, timestamp as int)
                && replies(reply, old(state)@.send_reply(new_message@, timestamp as int)),
{
    let timestamp = utc_now_micros();
    persist_at(state, new_message, timestamp)
}

/// Sends a message that is on record out to the live subscribers, under the
/// global scope, and returns how many subscriptions observe it. With none it
/// is dropped from the live stream, which is no error.
///
/// Fails with `NotFound` if the record does not hold the message, field for
/// field: nothing goes out live that was not persisted first, or that is no
/// longer there. Fails with `ChannelClosed` after a shutdown of the channel.
/// Nothing changes then.
pub fn announce(state: &mut AppState, message: Message) -> (heard: Result<usize, ChatError>)
    requires
        old(state).wf(),
    ensures
        final(state).wf(),
        final(state)@ == old(state)@.after_announce(message@),
        match old(state)@.announce_reply(message@) {
            Ok(audience) => heard is Ok && heard.unwrap() == audience,
            Err(error) => heard == Err::<usize, ChatError>(error),
        },
{
    proof {
        state.lemma_consistent();
        state@.lemma_after_announce(message@);
    }
    if !state.messages.holds(&message) {
        return Err(ChatError::NotFound);
    }
    state.queue.publish(ChannelScope::Global, message)
}

/// Posts a message, stamped with `timestamp`: the sender joins the room, the
/// message goes on record, then out to the live subscribers, and comes back
/// as it was persisted.
///
/// Fails with `NotFound`, and changes nothing, if the room does not exist.
/// Fails with `StoreError` if the record takes nothing more; the sender has
/// joined the room by then. Live delivery is best effort: with no subscriber,
/// or after a shutdown of the channel, the message is on record all the same
/// and the request succeeds.
pub fn send_at(state: &mut AppState, new_message: NewMessage, timestamp: i64) -> (reply: Result<
    Message,
    ChatError,
>)
    requires
        old(state).wf(),
    ensures
        final(state).wf(),
        final(state)@ == old(state)@.after_send(new_message@, timestamp as int),
        replies(reply, old(state)@.send_reply(new_message@, timestamp as int)),
{
    proof {
        state.lemma_consistent();
        state@.lemma_send_in_two_parts(new_message@, timestamp as int);
    }
    match persist_at(state, new_message, timestamp) {
        Ok(persisted) => {
            let copy = persisted.duplicate();
            let _ = announce(state, persisted);
            Ok(copy)
        },
        Err(error) => Err(error),
    }
}

/// Posts a message, stamped with the time of the system clock.
///
/// This is [`send_at`] with a timestamp that the clock decides: whatever it
/// reads, the outcome is the one that `send_at` gives for that reading.
/// Reading the clock panics on a machine whose clock is set before 1970;
/// `send_at` takes the time from its caller instead.
pub fn send(state: &mut AppState, new_message: NewMessage) -> (reply: Result<Message, ChatError>)
    requires
        old(state).wf(),
    ensures
        final(state).wf(),
        exists|timestamp: i64|
            final(state)@ == #[trigger] old(state)@.after_send(new_message@, timestamp as int)
                && replies(reply, old(state)@.send_reply(new_message@, timestamp as int)),
{
    let timestamp = utc_now_micros();
    send_at(state, new_message, timestamp)
}

/// The history of the room that the parameter `room_id` names, oldest first,
/// so that ids rise along it.
/// This reads the record and never touches the live channel.
///
/// Fails with `Validation` if the parameter is absent or writes no id. A room
/// without messages, known or not, has an empty history.
pub fn get_chat(state: &AppState, room_id: Option<&String>) -> (history: Result<
    Vec<Message>,
    ChatError,
>)
    requires
        state.wf(),
    ensures
        match room_id {
            Some(text) => match id_value(text@) {
                Some(id) => history is Ok && views(history.unwrap()@) == state@.archive.history(id)
                    && ascending(views(history.unwrap()@)),
                None => history == Err::<Vec<Message>, ChatError>(ChatError::Validation),
            },
            None => history == Err::<Vec<Message>, ChatError>(ChatError::Validation),
        },
{
    match required_id(room_id) {
        Ok(id) => Ok(state.messages.list_by_room(id)),
        Err(error) => Err(error),
    }
}

/// Subscribes to the live stream under the global scope, on the least handle
/// that is free: the subscription sees the messages of every room, posted
/// from now on.
pub fn subscribe(state: &mut AppState) -> (handle: SubscriptionHandle)
    requires
        old(state).wf(),
    ensures
        final(state).wf(),
        0 <= handle@ <= old(state)@.channel.slots.len(),
        !old(state)@.channel.is_attached(handle@),
        forall|j: int| 0 <= j < handle@ ==> old(state)@.channel.is_attached(j),
        final(state)@ == (ChatState {
            channel: old(state)@.channel.attach(handle@, ChannelScope::Global),
            ..old(state)@
        }),
{
    state.queue.subscribe(ChannelScope::Global)
}

/// Reads the subscription that `handle` names, without waiting; see
/// [`crate::broadcaster::Broadcaster::next`]. Rooms and record stay as they
/// are.
pub fn next(state: &mut AppState, handle: &SubscriptionHandle) -> (delivery: Delivery<Message>)
    requires
        old(state).wf(),
    ensures
        final(state).wf(),
        final(state)@ == (ChatState {
            channel: old(state)@.channel.after_read(handle@),
            ..old(state)@
        }),
        delivers(delivery, old(state)@.channel.reading(handle@)),
{
    state.queue.next(handle)
}

/// Ends the subscription that `handle` names. Rooms and record stay as they
/// are.
pub fn unsubscribe(state: &mut AppState, handle: SubscriptionHandle)
    requires
        old(state).wf(),
    ensures
        final(state).wf(),
        final(state)@ == (ChatState {
            channel: old(state)@.channel.detach(handle@),
            ..old(state)@
        }),
{
    state.queue.unsubscribe(handle)
}

/// Shuts the live channel down: nothing more goes out live, and every
/// subscription reads `Closed` once it has read what is still held for it.
/// Rooms and record stay as they are, and posting goes on putting messages
/// on record.
pub fn shutdown(state: &mut AppState)
    requires
        old(state).wf(),
    ensures
        final(state).wf(),
        final(state)@ == (ChatState { channel: old(state)@.channel.close(), ..old(state)@ }),
{
    state.queue.shutdown()
}

/// Takes one event of a live connection of the engine and says what to do on
/// it next; see [`SubscriptionManager::step`]. Rooms and record stay as they
/// are.
pub fn forward(state: &mut AppState, manager: &mut SubscriptionManager, event: Event) -> (action:
    Action<Message>)
    requires
        old(state).wf(),
        old(manager).wf(),
    ensures
        final(state).wf(),
        final(manager).wf(),
        final(state)@.rooms == old(state)@.rooms,
        final(state)@.archive == old(state)@.archive,
        stepped(
            old(manager)@,
            old(state)@.channel,
            event,
            final(manager)@,
            final(state)@.channel,
            action@,
        ),
{
    let ghost before = state@;
    let action = manager.step(&mut state.queue, event);
    proof {
        before.lemma_recorded_first_kept(state@, Seq::empty());
    }
    action
}

/// Takes over a message from a durable store, with the id and the timestamp
/// that it has, without sending it out live. Messages are taken in the order
/// of their ids.
///
/// Fails with `StoreError` if the room of the message does not exist, and
/// with `Conflict` if its id is below the next id to assign, or is the
/// largest there is. Nothing changes then.
pub fn restore_message(state: &mut AppState, message: Message) -> (done: Result<(), ChatError>)
    requires
        old(state).wf(),
    ensures
        final(state).wf(),
        !old(state)@.rooms.has_room(message@.room_id) ==> done == Err::<(), ChatError>(
            ChatError::StoreError,
        ) && final(state)@ == old(state)@,
        old(state)@.rooms.has_room(message@.room_id) && !old(state)@.archive.admits(message@.id)
            ==> done == Err::<(), ChatError>(ChatError::Conflict) && final(state)@ == old(state)@,
        old(state)@.rooms.has_room(message@.room_id) && old(state)@.archive.admits(message@.id)
            ==> done is Ok && final(state)@ == (ChatState {
            archive: old(state)@.archive.adopted(message@),
            ..old(state)@
        }),
{
    let ghost before = state@;
    let ghost taken = message@;
    proof {
        state.lemma_consistent();
    }
    let done = state.messages.adopt(&state.rooms, message);
    proof {
        if done is Ok {
            before.lemma_rooted_kept(state@, seq![taken]);
            before.lemma_recorded_first_kept(state@, Seq::empty());
        }
    }
    done
}

} // verus!
