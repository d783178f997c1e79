//! A single-process chat fan-out engine.
//!
//! Producers post messages into rooms. Each message is put on record, its
//! sender joins the room, and the message is pushed to everybody who is
//! subscribed to the live stream at that moment. The parts, leaf first:
//!
//! - [`message`], [`scope`] and [`error`]: what travels, to whom, and how a
//!   request is refused;
//! - [`room`] and [`registry`]: rooms and their participants, nobody twice;
//! - [`store`]: the append-only record of messages, queried by room;
//! - [`channel`] and [`broadcaster`]: the bounded live channel, first as a
//!   mathematical model, then as the structure that implements it;
//! - [`subscription`]: the life of one live connection, as a state machine;
//! - [`state`], [`chat`] and [`chat_room`]: the engine as a whole and the
//!   requests that it serves;
//! - [`relay`]: a second, simpler profile that hands raw frames on to every
//!   peer, with no record and no rooms;
//! - [`record`] and [`query`]: the forms in which rooms are stored and ids
//!   are written;
//! - [`user`]: accounts and partial updates of them;
//! - [`laws`]: what holds of all of this whatever is done with it.
//!
//! Nothing here waits or sleeps: a caller that owns the connections drives
//! the engine one call at a time, and whoever shares an engine between tasks
//! puts it behind a lock.

pub mod broadcaster;
pub mod channel;
pub mod chat;
pub mod chat_room;
mod clock;
pub mod error;
pub mod laws;
pub mod message;
pub mod query;
pub mod record;
pub mod registry;
pub mod relay;
pub mod room;
pub mod scope;
pub mod state;
pub mod store;
pub mod subscription;
pub mod user;
