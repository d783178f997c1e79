//! What a subscription receives.

use vstd::prelude::*;

verus! {

/// The subset of published traffic a subscription observes, and the audience
/// a publication is addressed to.
#[derive(Clone, Copy, Debug, PartialEq, Eq, Structural)]
pub enum ChannelScope {
    /// Every message, whatever room it belongs to.
    Global,
    /// Only the messages of one room.
    Room(i32),
}

impl ChannelScope {
    /// A subscription of scope `self` observes a publication made under
    /// `published` when it listens to everything or to exactly that scope.
    pub open spec fn observes(self, published: ChannelScope) -> bool {
        self == ChannelScope::Global || self == published
    }

    /// Decides whether a subscription of this scope observes a publication.
    pub fn matches(&self, published: &ChannelScope) -> (r: bool)
        ensures
            r == self.observes(*published),
    {
        match self {
            ChannelScope::Global => true,
            ChannelScope::Room(own) => match published {
                ChannelScope::Global => false,
                ChannelScope::Room(other) => *own == *other,
            },
        }
    }
}

} // verus!
