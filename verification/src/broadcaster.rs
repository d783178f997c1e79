//! The broadcaster: a bounded in-memory fan-out channel.
//!
//! Producers never wait for consumers. The channel keeps the newest
//! publications up to its capacity; a subscription that falls further behind
//! loses the oldest ones it has not read and is told how many on its next
//! read. Each subscription has a cursor and a lag counter of its own.

use vstd::prelude::*;
use crate::channel::{first_observed, observers, Channel, Published, Reading, Subscription};
use crate::error::ChatError;
use crate::message::Payload;
use crate::scope::ChannelScope;

verus! {

/// Names one subscription of one broadcaster. It is handed out by
/// [`Broadcaster::subscribe`] and given back to [`Broadcaster::unsubscribe`].
#[derive(Debug)]
pub struct SubscriptionHandle {
    slot: usize,
}

impl View for SubscriptionHandle {
    type V = int;

    closed spec fn view(&self) -> int {
        self.slot as int
    }
}

/// What one read of a subscription yields.
#[derive(Clone, Debug, PartialEq, Eq)]
pub enum Delivery<T> {
    /// The next observed publication.
    Message(T),
    /// This many observed publications were dropped before they were read;
    /// reading goes on with the oldest one still held.
    Lagged(u64),
    /// Nothing to read for now.
    Pending,
    /// The broadcaster is shut down and nothing is left to read, or the
    /// subscription does not exist.
    Closed,
}

/// Whether an executable delivery is the reading that the model gives.
pub open spec fn delivers<T: Payload>(delivery: Delivery<T>, reading: Reading<T::V>) -> bool {
    match delivery {
        Delivery::Message(payload) => reading == Reading::Payload(payload@),
        Delivery::Lagged(count) => reading == Reading::<T::V>::Lagged(count as nat),
        Delivery::Pending => reading == Reading::<T::V>::Pending,
        Delivery::Closed => reading == Reading::<T::V>::Closed,
    }
}

/// A subscription as the broadcaster stores it: the cursor is counted from
/// the oldest publication held.
#[derive(Clone, Copy)]
struct Cursor {
    scope: ChannelScope,
    offset: usize,
    missed: u64,
}

/// A publication as the broadcaster holds it.
struct Held<T> {
    scope: ChannelScope,
    payload: T,
}

/// Whether a stored cursor stands for the subscription of the model, where
/// `base` is the log index of the oldest publication held.
spec fn cursor_tracks(cursor: Option<Cursor>, slot: Option<Subscription>, base: int) -> bool {
    match cursor {
        Some(c) => slot is Some && c.scope == slot.unwrap().scope && base + c.offset
            == slot.unwrap().position && c.missed == slot.unwrap().missed,
        None => slot is None,
    }
}

/// What dropping the oldest publication held, made under `evicted`, does to a
/// stored cursor.
spec fn cursor_after_eviction(cursor: Option<Cursor>, evicted: ChannelScope) -> Option<Cursor> {
    match cursor {
        Some(c) => if c.offset == 0 {
            if c.scope.observes(evicted) && c.missed < u64::MAX {
                Some(Cursor { missed: (c.missed + 1) as u64, ..c })
            } else {
                Some(c)
            }
        } else {
            Some(Cursor { offset: (c.offset - 1) as usize, ..c })
        },
        None => None,
    }
}

/// Moves every cursor past the oldest publication held, which is about to be
/// dropped, and counts it for those that observed it and had not read it.
fn advance_cursors(cursors: &mut Vec<Option<Cursor>>, evicted: ChannelScope)
    ensures
        final(cursors).len() == old(cursors).len(),
        forall|h: int|
            0 <= h < old(cursors).len() ==> #[trigger] final(cursors)[h] == cursor_after_eviction(
                old(cursors)[h],
                evicted,
            ),
{
    let ghost before = cursors@;
    let mut h: usize = 0;
    while h < cursors.len()
        invariant
            cursors.len() == before.len(),
            h <= cursors.len(),
            forall|k: int| 0 <= k < h ==> #[trigger] cursors[k] == cursor_after_eviction(before[k], evicted),
            forall|k: int| h <= k < before.len() ==> #[trigger] cursors[k] == before[k],
        decreases cursors.len() - h,
    {
        let current = cursors[h];
        match current {
            Some(c) => {
                if c.offset == 0 {
                    if c.scope.matches(&evicted) && c.missed < u64::MAX {
                        cursors.set(h, Some(Cursor { missed: c.missed + 1, ..c }));
                    }
                } else {
                    cursors.set(h, Some(Cursor { offset: c.offset - 1, ..c }));
                }
            },
            None => {},
        }
        h += 1;
    }
}

/// A bounded multi-producer, multi-consumer fan-out channel for values of
/// type `T`.
pub struct Broadcaster<T: Payload> {
    capacity: usize,
    held: Vec<Held<T>>,
    closed: bool,
    cursors: Vec<Option<Cursor>>,
    model: Ghost<Channel<T::V>>,
}

impl<T: Payload> Broadcaster<T> {
    /// The channel that this broadcaster stands for.
    pub closed spec fn view(&self) -> Channel<T::V> {
        self.model@
    }

    /// The broadcaster is consistent: what it stores is its channel, and the
    /// channel is in a reachable state.
    pub closed spec fn wf(&self) -> bool {
        &&& self.model@.inv()
        &&& self.capacity == self.model@.capacity
        &&& self.closed == self.model@.closed
        &&& self.held.len() == self.model@.retained
        &&& forall|i: int|
            0 <= i < self.held.len() ==> (#[trigger] self.held[i]).scope
                == self.model@.log[self.model@.base() + i].scope && self.held[i].payload@
                == self.model@.log[self.model@.base() + i].payload
        &&& self.cursors.len() == self.model@.slots.len()
        &&& forall|h: int|
            0 <= h < self.cursors.len() ==> cursor_tracks(
                #[trigger] self.cursors[h],
                self.model@.slots[h],
                self.model@.base(),
            )
    }

    /// A consistent broadcaster stands for a channel in a reachable state.
    pub proof fn lemma_consistent(&self)
        requires
            self.wf(),
        ensures
            self@.inv(),
    {
    }

    /// Makes a broadcaster that holds at most `capacity` publications, with
    /// no subscription and nothing published.
    pub fn new(capacity: usize) -> (broadcaster: Self)
        requires
            capacity >= 1,
        ensures
            broadcaster.wf(),
            broadcaster@ == Channel::<T::V>::empty(capacity as nat),
    {
        Broadcaster {
            capacity,
            held: Vec::new(),
            closed: false,
            cursors: Vec::new(),
            model: Ghost(Channel::empty(capacity as nat)),
        }
    }

    /// How many publications the broadcaster holds at most.
    pub fn capacity(&self) -> (capacity: usize)
        requires
            self.wf(),
        ensures
            capacity == self@.capacity,
    {
        self.capacity
    }

    /// How many publications the broadcaster holds now; never more than its
    /// capacity.
    pub fn held(&self) -> (count: usize)
        requires
            self.wf(),
        ensures
            count == self@.retained,
            count <= self@.capacity,
    {
        self.held.len()
    }

    /// Whether the broadcaster has been shut down.
    pub fn is_closed(&self) -> (closed: bool)
        requires
            self.wf(),
        ensures
            closed == self@.closed,
    {
        self.closed
    }

    /// Whether `handle` names a live subscription.
    pub fn is_subscribed(&self, handle: &SubscriptionHandle) -> (attached: bool)
        requires
            self.wf(),
        ensures
            attached == self@.is_attached(handle@),
    {
        if handle.slot < self.cursors.len() {
            self.cursors[handle.slot].is_some()
        } else {
            false
        }
    }

    /// Counts the live subscriptions that observe a publication made under
    /// `scope`.
    pub fn audience(&self, scope: ChannelScope) -> (count: usize)
        requires
            self.wf(),
        ensures
            count == self@.audience(scope),
    {
        let mut count: usize = 0;
        let mut h: usize = 0;
        while h < self.cursors.len()
            invariant
                self.wf(),
                h <= self.cursors.len(),
                count <= h,
                count == observers(self.model@.slots.take(h as int), scope),
            decreases self.cursors.len() - h,
        {
            proof {
                let upto = self.model@.slots.take(h + 1);
                assert(upto.drop_last() =~= self.model@.slots.take(h as int));
                assert(upto.last() == self.model@.slots[h as int]);
                assert(cursor_tracks(
                    self.cursors[h as int],
                    self.model@.slots[h as int],
                    self.model@.base(),
                ));
            }
            let current = self.cursors[h];
            match current {
                Some(c) => {
                    if c.scope.matches(&scope) {
                        count += 1;
                    }
                },
                None => {},
            }
            h += 1;
        }
        proof {
            assert(self.model@.slots.take(h as int) =~= self.model@.slots);
        }
        count
    }

    /// Publishes `payload` under `scope` without ever waiting for a
    /// subscriber.
    ///
    /// On a broadcaster that was shut down this fails with `ChannelClosed`.
    /// Otherwise it returns how many live subscriptions observe the
    /// publication. With none, the publication is dropped from the live
    /// stream, which is no error. With some, it is held for them; if the
    /// broadcaster was full, the oldest publication held makes room, and
    /// every subscription that observed it and had not read it counts one
    /// more missed.
    pub fn publish(&mut self, scope: ChannelScope, payload: T) -> (sent: Result<usize, ChatError>)
        requires
            old(self).wf(),
        ensures
            final(self).wf(),
            final(self)@ == old(self)@.publish(scope, payload@),
            old(self)@.closed ==> sent == Err::<usize, ChatError>(ChatError::ChannelClosed),
            !old(self)@.closed ==> sent is Ok && sent.unwrap() == old(self)@.audience(scope),
    {
        if self.closed {
            return Err(ChatError::ChannelClosed);
        }
        let audience = self.audience(scope);
        if audience == 0 {
            return Ok(0);
        }
        let ghost before = self.model@;
        let ghost after = before.publish(scope, payload@);
        let ghost old_held = self.held@;
        let ghost old_cursors = self.cursors@;
        proof {
            before.lemma_publish_keeps_inv(scope, payload@);
        }
        if self.held.len() == self.capacity {
            let dropped = self.held.remove(0);
            advance_cursors(&mut self.cursors, dropped.scope);
            proof {
                assert(dropped.scope == before.log[before.base()].scope);
            }
        }
        self.held.push(Held { scope, payload });
        self.model = Ghost(after);
        proof {
            assert(after.log == before.log.push(Published { scope, payload: payload@ }));
            if before.retained == before.capacity {
                assert(after.base() == before.base() + 1);
                assert forall|i: int| 0 <= i < self.held.len() implies (#[trigger] self.held[i]).scope
                    == after.log[after.base() + i].scope && self.held[i].payload@
                    == after.log[after.base() + i].payload by {
                    if i < old_held.len() - 1 {
                        assert(self.held[i] == old_held[i + 1]);
                        assert(after.log[after.base() + i] == before.log[before.base() + (i + 1)]);
                    }
                }
                assert forall|h: int| 0 <= h < self.cursors.len() implies cursor_tracks(
                    #[trigger] self.cursors[h],
                    after.slots[h],
                    after.base(),
                ) by {
                    assert(cursor_tracks(old_cursors[h], before.slots[h], before.base()));
                    assert(self.cursors[h] == cursor_after_eviction(
                        old_cursors[h],
                        before.log[before.base()].scope,
                    ));
                    if before.slots[h] is Some {
                        assert(before.holds(before.slots[h].unwrap()));
                    }
                }
            } else {
                assert(after.base() == before.base());
                assert forall|i: int| 0 <= i < self.held.len() implies (#[trigger] self.held[i]).scope
                    == after.log[after.base() + i].scope && self.held[i].payload@
                    == after.log[after.base() + i].payload by {
                    if i < old_held.len() {
                        assert(self.held[i] == old_held[i]);
                        assert(after.log[after.base() + i] == before.log[before.base() + i]);
                    }
                }
                assert forall|h: int| 0 <= h < self.cursors.len() implies cursor_tracks(
                    #[trigger] self.cursors[h],
                    after.slots[h],
                    after.base(),
                ) by {
                    assert(cursor_tracks(old_cursors[h], before.slots[h], before.base()));
                }
            }
        }
        Ok(audience)
    }

    /// The least handle that no subscription holds.
    fn free_slot(&self) -> (slot: usize)
        requires
            self.wf(),
        ensures
            slot <= self.cursors.len(),
            !self@.is_attached(slot as int),
            forall|j: int| 0 <= j < slot ==> self@.is_attached(j),
    {
        let mut slot: usize = 0;
        while slot < self.cursors.len()
            invariant
                self.wf(),
                slot <= self.cursors.len(),
                forall|j: int| 0 <= j < slot ==> self.model@.is_attached(j),
            decreases self.cursors.len() - slot,
        {
            proof {
                assert(cursor_tracks(
                    self.cursors[slot as int],
                    self.model@.slots[slot as int],
                    self.model@.base(),
                ));
            }
            if self.cursors[slot].is_none() {
                return slot;
            }
            slot += 1;
        }
        slot
    }

    /// Makes a subscription of scope `scope` and returns its handle: the
    /// least one that is free.
    ///
    /// The subscription yields the observed publications made from now on;
    /// nothing published before is ever delivered through it.
    pub fn subscribe(&mut self, scope: ChannelScope) -> (handle: SubscriptionHandle)
        requires
            old(self).wf(),
        ensures
            final(self).wf(),
            0 <= handle@ <= old(self)@.slots.len(),
            !old(self)@.is_attached(handle@),
            forall|j: int| 0 <= j < handle@ ==> old(self)@.is_attached(j),
            final(self)@ == old(self)@.attach(handle@, scope),
    {
        let slot = self.free_slot();
        let ghost before = self.model@;
        let ghost after = before.attach(slot as int, scope);
        let ghost old_cursors = self.cursors@;
        let cursor = Some(Cursor { scope, offset: self.held.len(), missed: 0 });
        proof {
            before.lemma_attach_keeps_inv(slot as int, scope);
        }
        if slot < self.cursors.len() {
            self.cursors.set(slot, cursor);
        } else {
            self.cursors.push(cursor);
        }
        self.model = Ghost(after);
        proof {
            assert forall|h: int| 0 <= h < self.cursors.len() implies cursor_tracks(
                #[trigger] self.cursors[h],
                after.slots[h],
                after.base(),
            ) by {
                if h != slot {
                    assert(cursor_tracks(old_cursors[h], before.slots[h], before.base()));
                }
            }
        }
        SubscriptionHandle { slot }
    }

    /// Ends the subscription that `handle` names and frees what the
    /// broadcaster kept for it. Other subscriptions are not touched.
    pub fn unsubscribe(&mut self, handle: SubscriptionHandle)
        requires
            old(self).wf(),
        ensures
            final(self).wf(),
            final(self)@ == old(self)@.detach(handle@),
    {
        let ghost before = self.model@;
        let ghost after = before.detach(handle@);
        let ghost old_cursors = self.cursors@;
        proof {
            before.lemma_detach_keeps_inv(handle@);
        }
        if handle.slot < self.cursors.len() {
            self.cursors.set(handle.slot, None);
        }
        self.model = Ghost(after);
        proof {
            assert forall|h: int| 0 <= h < self.cursors.len() implies cursor_tracks(
                #[trigger] self.cursors[h],
                after.slots[h],
                after.base(),
            ) by {
                if h != handle.slot {
                    assert(cursor_tracks(old_cursors[h], before.slots[h], before.base()));
                }
            }
        }
    }

    /// Shuts the broadcaster down. Nothing more is accepted; subscriptions
    /// read what is still held for them and then `Closed`.
    pub fn shutdown(&mut self)
        requires
            old(self).wf(),
        ensures
            final(self).wf(),
            final(self)@ == old(self)@.close(),
    {
        let ghost before = self.model@;
        proof {
            before.lemma_close_keeps_inv();
        }
        self.closed = true;
        self.model = Ghost(before.close());
    }

    /// Finds the oldest publication held, from `from` on, that a subscription
    /// of scope `scope` observes.
    fn locate(&self, scope: ChannelScope, from: usize) -> (found: Option<usize>)
        requires
            self.wf(),
            from <= self.held.len(),
        ensures
            match found {
                Some(i) => from <= i < self.held.len() && first_observed(
                    self@.log,
                    scope,
                    self@.base() + from,
                ) == Some(self@.base() + i),
                None => first_observed(self@.log, scope, self@.base() + from) is None,
            },
    {
        let mut i = from;
        while i < self.held.len()
            invariant
                self.wf(),
                from <= i <= self.held.len(),
                first_observed(self.model@.log, scope, self.model@.base() + i) == first_observed(
                    self.model@.log,
                    scope,
                    self.model@.base() + from,
                ),
            decreases self.held.len() - i,
        {
            if scope.matches(&self.held[i].scope) {
                return Some(i);
            }
            i += 1;
        }
        None
    }

    /// Reads the subscription that `handle` names, without waiting.
    ///
    /// A pending lag report comes first: `Lagged(n)` says that `n` observed
    /// publications were dropped unread, and reading then goes on with the
    /// oldest one held. Otherwise the oldest observed publication not yet
    /// read is delivered. With none left the read is `Closed` after a
    /// shutdown and `Pending` before. A handle without a subscription reads
    /// `Closed`.
    pub fn next(&mut self, handle: &SubscriptionHandle) -> (delivery: Delivery<T>)
        requires
            old(self).wf(),
        ensures
            final(self).wf(),
            final(self)@ == old(self)@.after_read(handle@),
            delivers(delivery, old(self)@.reading(handle@)),
    {
        let slot = handle.slot;
        if slot >= self.cursors.len() {
            return Delivery::Closed;
        }
        proof {
            assert(cursor_tracks(
                self.cursors[slot as int],
                self.model@.slots[slot as int],
                self.model@.base(),
            ));
        }
        let cursor = match self.cursors[slot] {
            Some(c) => c,
            None => {
                return Delivery::Closed;
            },
        };
        let ghost before = self.model@;
        let ghost after = before.after_read(slot as int);
        let ghost old_cursors = self.cursors@;
        proof {
            before.lemma_read_keeps_inv(slot as int);
            assert(before.holds(before.slots[slot as int].unwrap()));
        }
        let (moved, delivery) = if cursor.missed > 0 {
            (Cursor { missed: 0, ..cursor }, Delivery::Lagged(cursor.missed))
        } else {
            match self.locate(cursor.scope, cursor.offset) {
                Some(i) => {
                    let copy = self.held[i].payload.duplicate();
                    (Cursor { offset: i + 1, ..cursor }, Delivery::Message(copy))
                },
                None => {
                    let end = Cursor { offset: self.held.len(), ..cursor };
                    if self.closed {
                        (end, Delivery::Closed)
                    } else {
                        (end, Delivery::Pending)
                    }
                },
            }
        };
        self.cursors.set(slot, Some(moved));
        self.model = Ghost(after);
        proof {
            assert forall|h: int| 0 <= h < self.cursors.len() implies cursor_tracks(
                #[trigger] self.cursors[h],
                after.slots[h],
                after.base(),
            ) by {
                if h != slot {
                    assert(cursor_tracks(old_cursors[h], before.slots[h], before.base()));
                }
            }
        }
        delivery
    }
}

} // verus!
