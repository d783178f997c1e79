//! The life of a room: creating it, looking it up, adding a participant, and
//! deleting it together with its messages.

use vstd::prelude::*;
use crate::error::ChatError;
use crate::query::{id_value, required_id};
use crate::record::{json_list, listed_in, RoomRecord};
use crate::room::{deduplicate, join, NewRoom, NewRoomView, Room, RoomView};
use crate::state::{AppState, ChatState};
use crate::store::lemma_selection;
use crate::store::outside_room;

verus! {

/// The values of a list of rooms as clients read them.
pub open spec fn shown_views(list: Seq<NewRoom>) -> Seq<NewRoomView> {
    Seq::new(list.len(), |i: int| list[i]@)
}

/// A room as a client reads it.
pub open spec fn shown(room: RoomView) -> NewRoomView {
    NewRoomView { id: Some(room.id), participants: room.participants }
}

impl ChatState {
    /// Every room as a lookup shows it, in the order of creation.
    pub open spec fn rooms_shown(self) -> Seq<NewRoomView> {
        Seq::new(self.rooms.rooms.len(), |i: int| shown(self.rooms.rooms[i]))
    }

    /// What a lookup of the room `id` is answered with: the room alone, or
    /// `NotFound` where there is none of that id.
    pub open spec fn room_shown(self, id: int) -> Result<Seq<NewRoomView>, ChatError> {
        if self.rooms.has_room(id) {
            Ok(seq![shown(self.rooms.room(id))])
        } else {
            Err(ChatError::NotFound)
        }
    }

    /// The engine after room `id` was deleted: first its messages go, then
    /// the room. Where the room does not exist nothing changes.
    pub open spec fn after_delete_room(self, id: int) -> ChatState {
        if self.rooms.has_room(id) {
            ChatState {
                rooms: self.rooms.without(id),
                archive: self.archive.without_room(id),
                ..self
            }
        } else {
            self
        }
    }

    /// Deleting a room keeps the engine consistent.
    pub proof fn lemma_after_delete_room(self, id: int)
        requires
            self.inv(),
        ensures
            self.after_delete_room(id).inv(),
    {
        let after = self.after_delete_room(id);
        if self.rooms.has_room(id) {
            self.rooms.lemma_without(id);
            self.archive.lemma_without_room(id);
            lemma_selection(self.archive.log, outside_room(id));
            assert forall|i: int| 0 <= i < after.archive.log.len() implies after.rooms.has_room(
                (#[trigger] after.archive.log[i]).room_id,
            ) by {
                let m = after.archive.log[i];
                assert(self.archive.log.contains(m));
                let at = choose|at: int| 0 <= at < self.archive.log.len() && self.archive.log[at] == m;
                assert(self.rooms.has_room(self.archive.log[at].room_id));
                assert(outside_room(id)(m));
            }
        }
    }
}

/// Looks rooms up. Without the parameter `id` every room is shown, in the
/// order of creation; with it, the room of that id alone.
///
/// Fails with `Validation` if the parameter writes no id, and with
/// `NotFound` if it names a room that does not exist.
pub fn get_room(state: &AppState, id: Option<&String>) -> (found: Result<Vec<NewRoom>, ChatError>)
    requires
        state.wf(),
    ensures
        match id {
            Some(text) => match id_value(text@) {
                Some(id) => match state@.room_shown(id) {
                    Ok(rooms) => found is Ok && shown_views(found.unwrap()@) == rooms,
                    Err(error) => found == Err::<Vec<NewRoom>, ChatError>(error),
                },
                None => found == Err::<Vec<NewRoom>, ChatError>(ChatError::Validation),
            },
            None => found is Ok && shown_views(found.unwrap()@) == state@.rooms_shown(),
        },
{
    let mut rooms: Vec<NewRoom> = Vec::new();
    match id {
        Some(text) => {
            let id = match required_id(Some(text)) {
                Ok(id) => id,
                Err(error) => {
                    return Err(error);
                },
            };
            match state.rooms.get(id) {
                Ok(room) => {
                    rooms.push(room.describe());
                    assert(shown_views(rooms@) =~= seq![shown(state@.rooms.room(id as int))]);
                },
                Err(error) => {
                    return Err(error);
                },
            }
        },
        None => {
            let all = state.rooms.list();
            let mut i: usize = 0;
            while i < all.len()
                invariant
                    i <= all.len(),
                    rooms.len() == i,
                    forall|k: int| 0 <= k < i ==> rooms[k]@ == shown(all[k]@),
                decreases all.len() - i,
            {
                rooms.push(all[i].describe());
                i += 1;
            }
            proof {
                assert forall|k: int| 0 <= k < all.len() implies all[k]@ == state@.rooms.rooms[k] by {
                    assert(crate::registry::room_views(all@)[k] == all[k]@);
                }
                assert(shown_views(rooms@) =~= state@.rooms_shown());
            }
        },
    }
    Ok(rooms)
}

/// Says what creating a room for the participants that `room` lists would
/// be answered with, and changes nothing: the room with the id that it would
/// get, or the refusal.
pub fn preview_post_room(state: &AppState, room: &NewRoom) -> (made: Result<Room, ChatError>)
    requires
        state.wf(),
    ensures
        !state@.rooms.is_full() ==> made is Ok && made.unwrap()@ == state@.rooms.founded(
            room@.participants,
        ),
        state@.rooms.is_full() ==> made == Err::<Room, ChatError>(ChatError::StoreError),
{
    match state.rooms.next_id() {
        Some(id) => Ok(Room { id, participants: deduplicate(&room.participants) }),
        None => Err(ChatError::StoreError),
    }
}

/// Creates a room for the participants that `room` lists; an id that it names
/// is ignored, the registry assigns one. Of an identity listed more than once
/// only the first occurrence is kept.
///
/// Fails with `StoreError` if the ids have run out.
pub fn post_room(state: &mut AppState, room: NewRoom) -> (made: Result<Room, ChatError>)
    requires
        old(state).wf(),
    ensures
        final(state).wf(),
        !old(state)@.rooms.is_full() ==> made is Ok && made.unwrap()@ == old(state)@.rooms.founded(
            room@.participants,
        ) && final(state)@ == (ChatState {
            rooms: old(state)@.rooms.created(room@.participants),
            ..old(state)@
        }),
        old(state)@.rooms.is_full() ==> made == Err::<Room, ChatError>(ChatError::StoreError)
            && final(state)@ == old(state)@,
{
    proof {
        state.lemma_consistent();
        if !state@.rooms.is_full() {
            state@.rooms.lemma_created(room@.participants);
        }
    }
    state.rooms.create(&room.participants)
}

/// What adding the first participant that `room` lists to the room that it
/// names is answered with. A request without an id is malformed; then the
/// room is looked up; then the list is read.
pub open spec fn put_reply(state: ChatState, room: NewRoomView) -> Result<RoomView, ChatError> {
    if room.id is None {
        Err(ChatError::Validation)
    } else if !state.rooms.has_room(room.id.unwrap()) {
        Err(ChatError::NotFound)
    } else if room.participants.len() == 0 {
        Err(ChatError::Validation)
    } else {
        Ok(
            state.rooms.with_participant(room.id.unwrap(), room.participants[0]).room(
                room.id.unwrap(),
            ),
        )
    }
}

/// Says what the room `room_id` would be once `identity` has joined it, and
/// changes nothing. Fails with `NotFound` if the room does not exist.
pub fn preview_join(state: &AppState, room_id: i32, identity: &String) -> (joined: Result<
    Room,
    ChatError,
>)
    requires
        state.wf(),
    ensures
        state@.rooms.has_room(room_id as int) ==> joined is Ok && joined.unwrap()@
            == state@.rooms.with_participant(room_id as int, identity@).room(room_id as int),
        !state@.rooms.has_room(room_id as int) ==> joined == Err::<Room, ChatError>(
            ChatError::NotFound,
        ),
{
    match state.rooms.get(room_id) {
        Ok(room) => {
            let mut room = room;
            proof {
                state.lemma_consistent();
                let rooms = state@.rooms;
                rooms.lemma_with_participant(room_id as int, identity@);
                assert(rooms.rooms[rooms.index_of(room_id as int)].id == room_id);
                let after = rooms.with_participant(room_id as int, identity@);
                assert(after.rooms[after.index_of(room_id as int)].id == room_id);
            }
            join(&mut room.participants, identity);
            Ok(room)
        },
        Err(error) => Err(error),
    }
}

/// Says what adding the first participant that `room` lists to the room that
/// it names would be answered with, and changes nothing.
pub fn preview_put_room(state: &AppState, room: &NewRoom) -> (updated: Result<Room, ChatError>)
    requires
        state.wf(),
    ensures
        match put_reply(state@, room@) {
            Ok(expected) => updated is Ok && updated.unwrap()@ == expected,
            Err(error) => updated == Err::<Room, ChatError>(error),
        },
{
    let id = match room.id {
        Some(id) => id,
        None => {
            return Err(ChatError::Validation);
        },
    };
    if !state.rooms.contains(id) {
        return Err(ChatError::NotFound);
    }
    if room.participants.len() == 0 {
        return Err(ChatError::Validation);
    }
    assert(room@.participants[0] == room.participants[0]@);
    preview_join(state, id, &room.participants[0])
}

/// Adds the first participant that `room` lists to the room that it names,
/// and returns the room as it is then. Adding somebody who takes part
/// already changes nothing.
///
/// Fails with `Validation` if `room` names no id, with `NotFound` if the
/// room does not exist, and with `Validation` if the room exists and `room`
/// lists nobody. Nothing changes then.
pub fn put_room(state: &mut AppState, room: NewRoom) -> (updated: Result<Room, ChatError>)
    requires
        old(state).wf(),
    ensures
        final(state).wf(),
        match put_reply(old(state)@, room@) {
            Ok(expected) => updated is Ok && updated.unwrap()@ == expected && final(state)@ == (
            ChatState {
                rooms: old(state)@.rooms.with_participant(
                    room@.id.unwrap(),
                    room@.participants[0],
                ),
                ..old(state)@
            }),
            Err(error) => updated == Err::<Room, ChatError>(error) && final(state)@ == old(
                state,
            )@,
        },
{
    let id = match room.id {
        Some(id) => id,
        None => {
            return Err(ChatError::Validation);
        },
    };
    if !state.rooms.contains(id) {
        return Err(ChatError::NotFound);
    }
    if room.participants.len() == 0 {
        return Err(ChatError::Validation);
    }
    proof {
        state.lemma_consistent();
        state@.rooms.lemma_with_participant(id as int, room@.participants[0]);
        assert(room@.participants[0] == room.participants[0]@);
    }
    match state.rooms.add_participant(id, &room.participants[0]) {
        Ok(()) => state.rooms.get(id),
        Err(error) => Err(error),
    }
}

/// Deletes the room that the parameter `id` names: first every message of
/// the room, then the room itself.
///
/// Fails with `Validation` if the parameter is absent or writes no id, and
/// with `NotFound` if the room does not exist; nothing changes then.
pub fn delete_room(state: &mut AppState, id: Option<&String>) -> (done: Result<(), ChatError>)
    requires
        old(state).wf(),
    ensures
        final(state).wf(),
        match id {
            Some(text) => match id_value(text@) {
                Some(id) => final(state)@ == old(state)@.after_delete_room(id) && (if old(
                    state,
                )@.rooms.has_room(id) {
                    done is Ok
                } else {
                    done == Err::<(), ChatError>(ChatError::NotFound)
                }),
                None => done == Err::<(), ChatError>(ChatError::Validation) && final(state)@
                    == old(state)@,
            },
            None => done == Err::<(), ChatError>(ChatError::Validation) && final(state)@ == old(
                state,
            )@,
        },
{
    let id = match required_id(id) {
        Ok(id) => id,
        Err(error) => {
            return Err(error);
        },
    };
    if !state.rooms.contains(id) {
        return Err(ChatError::NotFound);
    }
    proof {
        state.lemma_consistent();
        state@.lemma_after_delete_room(id as int);
        state@.archive.lemma_without_room(id as int);
    }
    state.messages.delete_by_room(id);
    state.rooms.delete(&state.messages, id)
}

/// Takes over a room from a row of a durable store, under the id that the
/// row has. Rows are taken in the order of their ids.
///
/// Fails with `Validation` if the text of the row is no JSON list of strings,
/// and with `Conflict` if the id of the row is below the next id to assign,
/// or is the largest there is. Nothing changes then.
pub fn restore_room(state: &mut AppState, row: &RoomRecord) -> (done: Result<(), ChatError>)
    requires
        old(state).wf(),
    ensures
        final(state).wf(),
        match json_list(row.participants@) {
            Some(listed) => if old(state)@.rooms.admits(row.id as int) {
                done is Ok && final(state)@ == (ChatState {
                    rooms: old(state)@.rooms.adopted(row.id as int, listed),
                    ..old(state)@
                })
            } else {
                done == Err::<(), ChatError>(ChatError::Conflict) && final(state)@ == old(state)@
            },
            None => done == Err::<(), ChatError>(ChatError::Validation) && final(state)@ == old(
                state,
            )@,
        },
{
    let listed = match listed_in(row) {
        Ok(listed) => listed,
        Err(error) => {
            return Err(error);
        },
    };
    proof {
        state.lemma_consistent();
        if state@.rooms.admits(row.id as int) {
            state@.rooms.lemma_adopted(row.id as int, crate::room::names(listed@));
        }
    }
    state.rooms.adopt(row.id, &listed)
}

} // verus!
