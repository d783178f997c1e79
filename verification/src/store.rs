//! The message record: an append-only log of chat messages that can be
//! queried by room.

use vstd::prelude::*;
use crate::error::ChatError;
use crate::message::{Message, MessageView, Payload};
use crate::registry::RoomRegistry;

verus! {

/// The values of a list of messages, in order.
pub open spec fn views(list: Seq<Message>) -> Seq<MessageView> {
    Seq::new(list.len(), |i: int| list[i]@)
}

/// Selects the messages of one room.
pub open spec fn in_room(room: int) -> spec_fn(MessageView) -> bool {
    |m: MessageView| m.room_id == room
}

/// Selects the messages of all other rooms.
pub open spec fn outside_room(room: int) -> spec_fn(MessageView) -> bool {
    |m: MessageView| m.room_id != room
}

/// Whether ids grow strictly along the list.
pub open spec fn ascending(log: Seq<MessageView>) -> bool {
    forall|i: int, j: int| 0 <= i < j < log.len() ==> (#[trigger] log[i]).id < (#[trigger] log[j]).id
}

/// Whether timestamps never fall along the list.
pub open spec fn chronological(log: Seq<MessageView>) -> bool {
    forall|i: int, j: int|
        0 <= i < j < log.len() ==> (#[trigger] log[i]).timestamp <= (#[trigger] log[j]).timestamp
}

/// The mathematical model of the record.
pub struct Archive {
    /// Every message held, in the order of appending.
    pub log: Seq<MessageView>,
    /// The id that the next message gets.
    pub next_id: int,
}

impl Archive {
    /// A record without messages; ids start at 1.
    pub open spec fn empty() -> Archive {
        Archive { log: Seq::empty(), next_id: 1 }
    }

    /// Whether the ids have run out.
    pub open spec fn is_full(self) -> bool {
        self.next_id >= i32::MAX
    }

    /// Whether `id` is one that the record has given out already.
    pub open spec fn has_assigned(self, id: int) -> bool {
        1 <= id < self.next_id
    }

    /// The messages of one room, in the order of appending.
    pub open spec fn history(self, room: int) -> Seq<MessageView> {
        self.log.filter(in_room(room))
    }

    /// The message that an append makes of its arguments.
    pub open spec fn stamped(
        self,
        sender: Seq<char>,
        body: Seq<char>,
        room: int,
        timestamp: int,
    ) -> MessageView {
        MessageView { id: self.next_id, timestamp, sender, message: body, room_id: room }
    }

    /// The record after `message` was appended.
    pub open spec fn appended(self, message: MessageView) -> Archive {
        Archive { log: self.log.push(message), next_id: self.next_id + 1 }
    }

    /// Whether a message that was recorded elsewhere can be taken over
    /// under `id`: the id is neither used nor passed over yet.
    pub open spec fn admits(self, id: int) -> bool {
        self.next_id <= id < i32::MAX
    }

    /// The record after `message`, recorded elsewhere, was taken over.
    pub open spec fn adopted(self, message: MessageView) -> Archive {
        Archive { log: self.log.push(message), next_id: message.id + 1 }
    }

    /// The record after the messages of one room were removed.
    pub open spec fn without_room(self, room: int) -> Archive {
        Archive { log: self.log.filter(outside_room(room)), ..self }
    }

    /// What holds of the record in every reachable state: ids are positive,
    /// below the next id to assign, and grow strictly along the log.
    pub open spec fn inv(self) -> bool {
        &&& 1 <= self.next_id <= i32::MAX
        &&& forall|i: int| 0 <= i < self.log.len() ==> 1 <= (#[trigger] self.log[i]).id < self.next_id
        &&& ascending(self.log)
    }
}

/// What a selection keeps comes from the list, and keeps its order: a
/// selection from a list with ascending ids has ascending ids, and one from a
/// list whose timestamps never fall has timestamps that never fall.
pub proof fn lemma_selection(log: Seq<MessageView>, keep: spec_fn(MessageView) -> bool)
    ensures
        forall|k: int|
            0 <= k < log.filter(keep).len() ==> log.contains(#[trigger] log.filter(keep)[k]) && keep(
                log.filter(keep)[k],
            ),
        ascending(log) ==> ascending(log.filter(keep)),
        chronological(log) ==> chronological(log.filter(keep)),
    decreases log.len(),
{
    reveal(Seq::filter);
    if log.len() > 0 {
        let front = log.drop_last();
        let last = log.last();
        lemma_selection(front, keep);
        let kept = log.filter(keep);
        assert forall|k: int| 0 <= k < kept.len() implies log.contains(#[trigger] kept[k]) && keep(
            kept[k],
        ) by {
            if k < front.filter(keep).len() {
                let e = front.filter(keep)[k];
                assert(front.contains(e));
                let i = choose|i: int| 0 <= i < front.len() && front[i] == e;
                assert(log[i] == e);
            } else {
                assert(log[log.len() - 1] == last);
            }
        }
        if ascending(log) {
            assert forall|i: int, j: int| 0 <= i < j < front.len() implies (#[trigger] front[i]).id
                < (#[trigger] front[j]).id by {
                assert(front[i] == log[i] && front[j] == log[j]);
            }
            assert forall|i: int, j: int| 0 <= i < j < kept.len() implies (#[trigger] kept[i]).id
                < (#[trigger] kept[j]).id by {
                if j >= front.filter(keep).len() {
                    let e = front.filter(keep)[i];
                    assert(front.contains(e));
                    let at = choose|at: int| 0 <= at < front.len() && front[at] == e;
                    assert(log[at] == e);
                    assert(log[log.len() - 1] == last);
                }
            }
        }
        if chronological(log) {
            assert forall|i: int, j: int| 0 <= i < j < front.len() implies (
            #[trigger] front[i]).timestamp <= (#[trigger] front[j]).timestamp by {
                assert(front[i] == log[i] && front[j] == log[j]);
            }
            assert forall|i: int, j: int| 0 <= i < j < kept.len() implies (
            #[trigger] kept[i]).timestamp <= (#[trigger] kept[j]).timestamp by {
                if j >= front.filter(keep).len() {
                    let e = front.filter(keep)[i];
                    assert(front.contains(e));
                    let at = choose|at: int| 0 <= at < front.len() && front[at] == e;
                    assert(log[at] == e);
                    assert(log[log.len() - 1] == last);
                }
            }
        }
    }
}

impl Archive {
    /// Removing the messages of a room keeps the record consistent, and
    /// leaves that room without history.
    pub proof fn lemma_without_room(self, room: int)
        requires
            self.inv(),
        ensures
            self.without_room(room).inv(),
            self.without_room(room).history(room) == Seq::<MessageView>::empty(),
    {
        let rest = self.log.filter(outside_room(room));
        lemma_selection(self.log, outside_room(room));
        assert forall|i: int| 0 <= i < rest.len() implies 1 <= (#[trigger] rest[i]).id
            < self.next_id by {
            assert(self.log.contains(rest[i]));
        }
        lemma_selection(rest, in_room(room));
        let none = rest.filter(in_room(room));
        if none.len() > 0 {
            assert(rest.contains(none[0]));
            let i = choose|i: int| 0 <= i < rest.len() && rest[i] == none[0];
            assert(outside_room(room)(rest[i]));
            assert(in_room(room)(none[0]));
        }
        assert(none =~= Seq::<MessageView>::empty());
    }

    /// Taking a message over keeps the record consistent.
    pub proof fn lemma_adopted(self, message: MessageView)
        requires
            self.inv(),
            self.admits(message.id),
        ensures
            self.adopted(message).inv(),
    {
        let after = self.adopted(message);
        assert forall|i: int, j: int| 0 <= i < j < after.log.len() implies (
        #[trigger] after.log[i]).id < (#[trigger] after.log[j]).id by {
            assert(after.log[i] == self.log[i]);
            if j < self.log.len() {
                assert(after.log[j] == self.log[j]);
            }
        }
        assert forall|i: int| 0 <= i < after.log.len() implies 1 <= (#[trigger] after.log[i]).id
            < after.next_id by {
            if i < self.log.len() {
                assert(after.log[i] == self.log[i]);
            }
        }
    }

    /// Appending a message with the next id keeps the record consistent.
    pub proof fn lemma_appended(self, message: MessageView)
        requires
            self.inv(),
            !self.is_full(),
            message.id == self.next_id,
        ensures
            self.appended(message).inv(),
            self.appended(message).history(message.room_id) == self.history(message.room_id).push(
                message,
            ),
            forall|room: int|
                room != message.room_id ==> self.appended(message).history(room) == self.history(
                    room,
                ),
    {
        let after = self.appended(message);
        assert forall|i: int, j: int| 0 <= i < j < after.log.len() implies (#[trigger] after.log[i]).id
            < (#[trigger] after.log[j]).id by {
            if j < self.log.len() {
                assert(after.log[i] == self.log[i] && after.log[j] == self.log[j]);
            } else {
                assert(after.log[i] == self.log[i]);
            }
        }
        self.log.lemma_filter_push(message, in_room(message.room_id));
        assert forall|room: int| room != message.room_id implies after.history(room)
            == self.history(room) by {
            self.log.lemma_filter_push(message, in_room(room));
        }
    }
}

/// The record of persisted chat messages.
pub struct MessageStore {
    messages: Vec<Message>,
    next_id: i32,
}

impl MessageStore {
    /// What the record holds.
    pub closed spec fn view(&self) -> Archive {
        Archive { log: views(self.messages@), next_id: self.next_id as int }
    }

    /// The record is consistent.
    pub closed spec fn wf(&self) -> bool {
        self@.inv()
    }

    /// A consistent record is in a reachable state.
    pub proof fn lemma_consistent(&self)
        requires
            self.wf(),
        ensures
            self@.inv(),
    {
    }

    /// Makes an empty record.
    pub fn new() -> (store: MessageStore)
        ensures
            store.wf(),
            store@ == Archive::empty(),
    {
        let store = MessageStore { messages: Vec::new(), next_id: 1 };
        assert(store@.log =~= Seq::<MessageView>::empty());
        store
    }

    /// How many messages the record holds.
    pub fn len(&self) -> (count: usize)
        ensures
            count == self@.log.len(),
    {
        self.messages.len()
    }

    /// Persists a message of `sender` with text `body` in room `room_id`,
    /// stamped with `timestamp`, and returns it with the id it was given.
    ///
    /// Fails with `StoreError`, and records nothing, if `room_id` names no
    /// room of `rooms` or the ids have run out.
    pub fn append(
        &mut self,
        rooms: &RoomRegistry,
        sender: String,
        body: String,
        room_id: i32,
        timestamp: i64,
    ) -> (saved: Result<Message, ChatError>)
        requires
            old(self).wf(),
            rooms.wf(),
        ensures
            final(self).wf(),
            rooms@.has_room(room_id as int) && !old(self)@.is_full() ==> saved is Ok
                && saved.unwrap()@ == old(self)@.stamped(
                sender@,
                body@,
                room_id as int,
                timestamp as int,
            ) && final(self)@ == old(self)@.appended(saved.unwrap()@),
            !(rooms@.has_room(room_id as int) && !old(self)@.is_full()) ==> saved == Err::<
                Message,
                ChatError,
            >(ChatError::StoreError) && final(self)@ == old(self)@,
    {
        if !rooms.contains(room_id) || self.next_id == i32::MAX {
            return Err(ChatError::StoreError);
        }
        let message = Message { id: self.next_id, timestamp, sender, message: body, room_id };
        let copy = message.duplicate();
        proof {
            self@.lemma_appended(message@);
            assert(views(self.messages@.push(message)) =~= views(self.messages@).push(message@));
        }
        self.messages.push(message);
        self.next_id = self.next_id + 1;
        Ok(copy)
    }

    /// Takes over a message that was recorded elsewhere, such as one read
    /// back from a durable store, with the id and the timestamp that it has.
    /// Ids assigned afterwards lie above its id.
    ///
    /// Fails with `StoreError` if its room is none of `rooms`, and with
    /// `Conflict` if its id is below the next id to assign, or is the largest
    /// there is. Nothing is taken then.
    pub fn adopt(&mut self, rooms: &RoomRegistry, message: Message) -> (done: Result<(), ChatError>)
        requires
            old(self).wf(),
            rooms.wf(),
        ensures
            final(self).wf(),
            !rooms@.has_room(message@.room_id) ==> done == Err::<(), ChatError>(
                ChatError::StoreError,
            ) && final(self)@ == old(self)@,
            rooms@.has_room(message@.room_id) && !old(self)@.admits(message@.id) ==> done == Err::<
                (),
                ChatError,
            >(ChatError::Conflict) && final(self)@ == old(self)@,
            rooms@.has_room(message@.room_id) && old(self)@.admits(message@.id) ==> done is Ok
                && final(self)@ == old(self)@.adopted(message@),
    {
        if !rooms.contains(message.room_id) {
            return Err(ChatError::StoreError);
        }
        if message.id < self.next_id || message.id == i32::MAX {
            return Err(ChatError::Conflict);
        }
        proof {
            self@.lemma_adopted(message@);
            assert(views(self.messages@.push(message)) =~= views(self.messages@).push(message@));
        }
        self.next_id = message.id + 1;
        self.messages.push(message);
        Ok(())
    }

    /// The id that the next message gets, or `None` where the ids have run
    /// out.
    pub fn next_id(&self) -> (id: Option<i32>)
        requires
            self.wf(),
        ensures
            match id {
                Some(next) => !self@.is_full() && next == self@.next_id,
                None => self@.is_full(),
            },
    {
        if self.next_id == i32::MAX {
            None
        } else {
            Some(self.next_id)
        }
    }

    /// Whether `message` is on record, field for field.
    pub fn holds(&self, message: &Message) -> (found: bool)
        ensures
            found == self@.log.contains(message@),
    {
        let mut i: usize = self.messages.len();
        while i > 0
            invariant
                i <= self.messages.len(),
                forall|k: int| i <= k < self.messages.len() ==> views(self.messages@)[k] != message@,
            decreases i,
        {
            i -= 1;
            let kept = &self.messages[i];
            if kept.id == message.id && kept.timestamp == message.timestamp && kept.room_id
                == message.room_id && kept.sender == message.sender && kept.message
                == message.message {
                assert(views(self.messages@)[i as int] == message@);
                return true;
            }
        }
        false
    }

    /// Whether the record has given out `id` already.
    pub fn has_assigned(&self, id: i32) -> (assigned: bool)
        ensures
            assigned == self@.has_assigned(id as int),
    {
        1 <= id && id < self.next_id
    }

    /// The messages of room `room_id`, oldest first, so that their ids rise.
    /// A room without messages gives an empty list.
    pub fn list_by_room(&self, room_id: i32) -> (history: Vec<Message>)
        requires
            self.wf(),
        ensures
            views(history@) == self@.history(room_id as int),
            ascending(views(history@)),
    {
        let mut history: Vec<Message> = Vec::new();
        let mut i: usize = 0;
        proof {
            reveal(Seq::filter);
            assert(views(self.messages@).take(0) =~= Seq::<MessageView>::empty());
            assert(views(history@) =~= Seq::<MessageView>::empty());
        }
        while i < self.messages.len()
            invariant
                i <= self.messages.len(),
                views(history@) == views(self.messages@).take(i as int).filter(
                    in_room(room_id as int),
                ),
            decreases self.messages.len() - i,
        {
            proof {
                let log = views(self.messages@);
                assert(log.take(i + 1) =~= log.take(i as int).push(log[i as int]));
                log.take(i as int).lemma_filter_push(log[i as int], in_room(room_id as int));
            }
            if self.messages[i].room_id == room_id {
                let copy = self.messages[i].duplicate();
                proof {
                    assert(views(history@.push(copy)) =~= views(history@).push(copy@));
                }
                history.push(copy);
            }
            i += 1;
        }
        proof {
            assert(views(self.messages@).take(i as int) =~= views(self.messages@));
            lemma_selection(self@.log, in_room(room_id as int));
        }
        history
    }

    /// Whether room `room_id` has any message.
    pub fn has_messages(&self, room_id: i32) -> (found: bool)
        ensures
            found == (self@.history(room_id as int).len() > 0),
    {
        let mut i: usize = 0;
        proof {
            reveal(Seq::filter);
            assert(views(self.messages@).take(0) =~= Seq::<MessageView>::empty());
        }
        while i < self.messages.len()
            invariant
                i <= self.messages.len(),
                views(self.messages@).take(i as int).filter(in_room(room_id as int)).len() == 0,
            decreases self.messages.len() - i,
        {
            proof {
                let log = views(self.messages@);
                assert(log.take(i + 1) =~= log.take(i as int).push(log[i as int]));
                log.take(i as int).lemma_filter_push(log[i as int], in_room(room_id as int));
            }
            if self.messages[i].room_id == room_id {
                proof {
                    let log = views(self.messages@);
                    let rest = log.skip(i + 1);
                    assert(log =~= log.take(i + 1) + rest);
                    Seq::filter_distributes_over_add(
                        log.take(i + 1),
                        rest,
                        in_room(room_id as int),
                    );
                }
                return true;
            }
            i += 1;
        }
        proof {
            assert(views(self.messages@).take(i as int) =~= views(self.messages@));
        }
        false
    }

    /// Removes every message of room `room_id` and returns how many there
    /// were. The messages of other rooms stay, in their order.
    pub fn delete_by_room(&mut self, room_id: i32) -> (removed: usize)
        requires
            old(self).wf(),
        ensures
            final(self).wf(),
            final(self)@ == old(self)@.without_room(room_id as int),
            removed == old(self)@.history(room_id as int).len(),
    {
        let mut kept: Vec<Message> = Vec::new();
        let mut removed: usize = 0;
        let mut i: usize = 0;
        proof {
            reveal(Seq::filter);
            assert(views(self.messages@).take(0) =~= Seq::<MessageView>::empty());
            assert(views(kept@) =~= Seq::<MessageView>::empty());
        }
        while i < self.messages.len()
            invariant
                i <= self.messages.len(),
                removed <= i,
                views(kept@) == views(self.messages@).take(i as int).filter(
                    outside_room(room_id as int),
                ),
                removed == views(self.messages@).take(i as int).filter(
                    in_room(room_id as int),
                ).len(),
            decreases self.messages.len() - i,
        {
            proof {
                let log = views(self.messages@);
                assert(log.take(i + 1) =~= log.take(i as int).push(log[i as int]));
                log.take(i as int).lemma_filter_push(log[i as int], in_room(room_id as int));
                log.take(i as int).lemma_filter_push(log[i as int], outside_room(room_id as int));
            }
            if self.messages[i].room_id == room_id {
                removed += 1;
            } else {
                let copy = self.messages[i].duplicate();
                proof {
                    assert(views(kept@.push(copy)) =~= views(kept@).push(copy@));
                }
                kept.push(copy);
            }
            i += 1;
        }
        proof {
            assert(views(self.messages@).take(i as int) =~= views(self.messages@));
            self@.lemma_without_room(room_id as int);
        }
        self.messages = kept;
        removed
    }
}

} // verus!
