//! The failures the engine reports.

use vstd::prelude::*;

verus! {

/// Why an operation was refused.
#[derive(Clone, Copy, Debug, PartialEq, Eq, Structural)]
pub enum ChatError {
    /// The room or message asked for does not exist.
    NotFound,
    /// The request is malformed: a room id that is no integer, a missing
    /// field, a participant list that cannot be read.
    Validation,
    /// The operation would leave dependents behind, such as deleting a room
    /// that still has messages.
    Conflict,
    /// The message record refused the write.
    StoreError,
    /// The broadcaster has been shut down.
    ChannelClosed,
}

} // verus!
