//! Rooms as a durable store holds them: one row per room, with the list of
//! participants kept as a single JSON text.
//!
//! Whatever the text of a row lists, a room read from it has nobody twice.

use vstd::prelude::*;
use vstd::pervasive::unreached;
use crate::error::ChatError;
use crate::room::{deduplicate, distinct, join, joined, names, Room, RoomView};

verus! {

/// The error of `serde_json`, carried as it is from the call that reports it
/// to the place where it is turned into a [`ChatError`]; nothing is known of
/// what it holds.
#[verifier::external_type_specification]
#[verifier::external_body]
pub struct ExJsonError(serde_json::Error);

/// The JSON text that `serde_json::to_string` writes for a list of strings.
pub uninterp spec fn json_text(list: Seq<Seq<char>>) -> Seq<char>;

/// The list of strings that `serde_json::from_str` reads from a text, or
/// `None` where it reports an error.
pub uninterp spec fn json_list(text: Seq<char>) -> Option<Seq<Seq<char>>>;

/// Writes a list of strings as JSON with `serde_json::to_string`. The call
/// succeeds, and what it writes is what [`json_text`] names for the list.
/// It reports an error only where a write fails or a value refuses to be
/// written; here the writes go into memory and the values are strings, so
/// neither can happen.
#[verifier::external_body]
fn write_json(list: &Vec<String>) -> (text: Result<String, serde_json::Error>)
    ensures
        text is Ok,
        text.unwrap()@ == json_text(names(list@)),
{
    serde_json::to_string(list)
}

/// Reads a list of strings from JSON with `serde_json::from_str`. What comes
/// back is what [`json_list`] names for the text: the list where the call
/// succeeds, an error where it does not.
#[verifier::external_body]
fn read_json(text: &str) -> (list: Result<Vec<String>, serde_json::Error>)
    ensures
        match list {
            Ok(read) => json_list(text@) == Some(names(read@)),
            Err(_) => json_list(text@) is None,
        },
{
    serde_json::from_str::<Vec<String>>(text)
}

/// A room as a row of the durable store.
#[derive(Clone, Debug, PartialEq, Eq)]
pub struct RoomRecord {
    pub id: i32,
    /// The participants, as the JSON text of a list of strings.
    pub participants: String,
}

/// Makes a room of an id and the participants listed for it. Of an identity
/// listed more than once only the first occurrence is kept.
pub fn room_of(id: i32, listed: &Vec<String>) -> (room: Room)
    ensures
        room@ == (RoomView { id: id as int, participants: distinct(names(listed@)) }),
        room@.participants.no_duplicates(),
{
    Room { id, participants: deduplicate(listed) }
}

/// Writes a room as a row.
pub fn to_record(room: &Room) -> (row: RoomRecord)
    ensures
        row.id == room.id,
        row.participants@ == json_text(room@.participants),
{
    match write_json(&room.participants) {
        Ok(participants) => RoomRecord { id: room.id, participants },
        Err(_) => unreached(),
    }
}

/// Reads the participants that a row lists, as they stand in its text.
///
/// Fails with `Validation` if the text is no JSON list of strings.
pub fn listed_in(row: &RoomRecord) -> (listed: Result<Vec<String>, ChatError>)
    ensures
        match json_list(row.participants@) {
            Some(list) => listed is Ok && names(listed.unwrap()@) == list,
            None => listed == Err::<Vec<String>, ChatError>(ChatError::Validation),
        },
{
    match read_json(row.participants.as_str()) {
        Ok(listed) => Ok(listed),
        Err(_) => Err(ChatError::Validation),
    }
}

/// Reads a room from a row.
///
/// Fails with `Validation` if the text of the row is no JSON list of strings.
pub fn from_record(row: &RoomRecord) -> (room: Result<Room, ChatError>)
    ensures
        match json_list(row.participants@) {
            Some(listed) => room is Ok && room.unwrap()@ == (RoomView {
                id: row.id as int,
                participants: distinct(listed),
            }),
            None => room == Err::<Room, ChatError>(ChatError::Validation),
        },
{
    match listed_in(row) {
        Ok(listed) => Ok(room_of(row.id, &listed)),
        Err(error) => Err(error),
    }
}

/// The row after `identity` has joined the room: the list is read, the
/// identity is added unless it is there already, and the list is written
/// again.
///
/// Fails with `Validation` if the text of the row is no JSON list of strings.
pub fn record_joined(row: &RoomRecord, identity: &String) -> (updated: Result<
    RoomRecord,
    ChatError,
>)
    ensures
        match json_list(row.participants@) {
            Some(listed) => updated is Ok && updated.unwrap().id == row.id
                && updated.unwrap().participants@ == json_text(
                joined(distinct(listed), identity@),
            ),
            None => updated == Err::<RoomRecord, ChatError>(ChatError::Validation),
        },
{
    match from_record(row) {
        Ok(room) => {
            let mut room = room;
            join(&mut room.participants, identity);
            Ok(to_record(&room))
        },
        Err(error) => Err(error),
    }
}

} // verus!
