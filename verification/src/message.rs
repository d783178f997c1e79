//! Chat messages and the requests that create them.

use vstd::prelude::*;

verus! {

/// What a broadcaster can carry: a value with a mathematical view that can be
/// copied for each subscriber without changing that view.
pub trait Payload: View + Sized {
    /// Makes a copy with the same view.
    fn duplicate(&self) -> (copy: Self)
        ensures
            copy@ == self@,
    ;
}

/// A persisted chat message. It never changes once the record has accepted it.
#[derive(Clone, Debug, PartialEq, Eq)]
pub struct Message {
    /// Assigned by the record, increasing with every append.
    pub id: i32,
    /// Microseconds since the Unix epoch, UTC, assigned when persisting.
    pub timestamp: i64,
    /// Identity of the author.
    pub sender: String,
    /// The text.
    pub message: String,
    /// The room the message belongs to.
    pub room_id: i32,
}

/// The mathematical value of a [`Message`].
pub struct MessageView {
    pub id: int,
    pub timestamp: int,
    pub sender: Seq<char>,
    pub message: Seq<char>,
    pub room_id: int,
}

impl View for Message {
    type V = MessageView;

    open spec fn view(&self) -> MessageView {
        MessageView {
            id: self.id as int,
            timestamp: self.timestamp as int,
            sender: self.sender@,
            message: self.message@,
            room_id: self.room_id as int,
        }
    }
}

impl Payload for Message {
    fn duplicate(&self) -> (copy: Self) {
        Message {
            id: self.id,
            timestamp: self.timestamp,
            sender: self.sender.clone(),
            message: self.message.clone(),
            room_id: self.room_id,
        }
    }
}

/// A request to post a message: who says what, and where.
#[derive(Clone, Debug, PartialEq, Eq)]
pub struct NewMessage {
    pub sender: String,
    pub message: String,
    pub room_id: i32,
}

/// The mathematical value of a [`NewMessage`].
pub struct NewMessageView {
    pub sender: Seq<char>,
    pub message: Seq<char>,
    pub room_id: int,
}

impl View for NewMessage {
    type V = NewMessageView;

    open spec fn view(&self) -> NewMessageView {
        NewMessageView { sender: self.sender@, message: self.message@, room_id: self.room_id as int }
    }
}

} // verus!
