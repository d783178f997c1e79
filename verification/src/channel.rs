//! The mathematical model of the broadcaster: an unbounded log of
//! publications of which only the newest few are retained, and one cursor per
//! subscription.
//!
//! The executable broadcaster refines this model step by step; everything it
//! promises is stated over the functions defined here.

use vstd::prelude::*;
use crate::scope::ChannelScope;

verus! {

/// One accepted publication: the scope it was made under and what it carries.
pub struct Published<V> {
    pub scope: ChannelScope,
    pub payload: V,
}

/// The state of one subscription.
pub struct Subscription {
    /// What the subscription listens to.
    pub scope: ChannelScope,
    /// Length of the log when the subscription was made.
    pub start: int,
    /// Index in the log of the next publication to examine.
    pub position: int,
    /// Observed publications dropped unread since the last lag report.
    pub missed: nat,
    /// Observed publications dropped unread since subscribing.
    pub lost: nat,
    /// Indices in the log of the publications delivered so far, in the order
    /// of delivery.
    pub received: Seq<int>,
}

/// What one read of a subscription yields.
pub enum Reading<V> {
    /// The next observed publication.
    Payload(V),
    /// This many observed publications were dropped before they were read.
    Lagged(nat),
    /// Nothing to read for now.
    Pending,
    /// The channel is shut down and nothing is left to read, or the
    /// subscription does not exist.
    Closed,
}

/// The whole channel.
pub struct Channel<V> {
    /// How many of the newest publications are kept at most.
    pub capacity: nat,
    /// Every accepted publication, oldest first.
    pub log: Seq<Published<V>>,
    /// How many of the newest publications are still held.
    pub retained: nat,
    /// Whether the channel has been shut down.
    pub closed: bool,
    /// The subscriptions, by handle; `None` marks a free handle.
    pub slots: Seq<Option<Subscription>>,
}

/// The lag counter after one more drop; it stops at the largest `u64`.
pub open spec fn counted(missed: nat) -> nat {
    if missed < u64::MAX {
        missed + 1
    } else {
        missed
    }
}

/// Whether a handle is taken by a subscription that observes `scope`.
pub open spec fn slot_observes(slot: Option<Subscription>, scope: ChannelScope) -> bool {
    slot is Some && slot.unwrap().scope.observes(scope)
}

/// How many of the subscriptions observe a publication made under `scope`.
pub open spec fn observers(slots: Seq<Option<Subscription>>, scope: ChannelScope) -> nat
    decreases slots.len(),
{
    if slots.len() == 0 {
        0
    } else {
        observers(slots.drop_last(), scope) + if slot_observes(slots.last(), scope) {
            1nat
        } else {
            0nat
        }
    }
}

/// Index of the first publication at or after `from` that a subscription of
/// scope `scope` observes.
pub open spec fn first_observed<V>(log: Seq<Published<V>>, scope: ChannelScope, from: int)
    -> Option<int>
    decreases log.len() - from,
{
    if from < 0 || from >= log.len() {
        None
    } else if scope.observes(log[from].scope) {
        Some(from)
    } else {
        first_observed(log, scope, from + 1)
    }
}

/// The indices `i` with `lo <= i < hi` of the publications that a
/// subscription of scope `scope` observes, ascending.
pub open spec fn observed_between<V>(
    log: Seq<Published<V>>,
    scope: ChannelScope,
    lo: int,
    hi: int,
) -> Seq<int>
    decreases hi - lo,
{
    if hi <= lo {
        Seq::empty()
    } else {
        let rest = observed_between(log, scope, lo, hi - 1);
        if scope.observes(log[hi - 1].scope) {
            rest.push(hi - 1)
        } else {
            rest
        }
    }
}

impl Subscription {
    /// A subscription made when the log had `at` entries.
    pub open spec fn fresh(scope: ChannelScope, at: int) -> Subscription {
        Subscription { scope, start: at, position: at, missed: 0, lost: 0, received: Seq::empty() }
    }

    /// The subscription after the publication at `index`, made under
    /// `evicted`, has been dropped from the channel: a cursor that had not
    /// passed it is moved past it, and counts it if it was observed.
    pub open spec fn after_eviction(self, index: int, evicted: ChannelScope) -> Subscription {
        if self.position == index {
            if self.scope.observes(evicted) {
                Subscription {
                    position: index + 1,
                    missed: counted(self.missed),
                    lost: self.lost + 1,
                    ..self
                }
            } else {
                Subscription { position: index + 1, ..self }
            }
        } else {
            self
        }
    }

    /// The subscription after its lag has been reported.
    pub open spec fn after_report(self) -> Subscription {
        Subscription { missed: 0, ..self }
    }

    /// The subscription after the publication at `index` has been delivered.
    pub open spec fn after_delivery(self, index: int) -> Subscription {
        Subscription { position: index + 1, received: self.received.push(index), ..self }
    }

    /// The subscription after it has examined the log up to `end` and found
    /// nothing.
    pub open spec fn after_scan(self, end: int) -> Subscription {
        Subscription { position: end, ..self }
    }
}

/// What eviction of the publication at `index` does to one handle.
pub open spec fn slot_after_eviction(slot: Option<Subscription>, index: int, evicted: ChannelScope)
    -> Option<Subscription> {
    match slot {
        Some(sub) => Some(sub.after_eviction(index, evicted)),
        None => None,
    }
}

impl<V> Channel<V> {
    /// A channel on which nothing has happened yet.
    pub open spec fn empty(capacity: nat) -> Channel<V> {
        Channel { capacity, log: Seq::empty(), retained: 0, closed: false, slots: Seq::empty() }
    }

    /// Index in the log of the oldest publication still held.
    pub open spec fn base(self) -> int {
        self.log.len() - self.retained
    }

    /// Whether `handle` names a live subscription.
    pub open spec fn is_attached(self, handle: int) -> bool {
        0 <= handle < self.slots.len() && self.slots[handle] is Some
    }

    /// The subscription that `handle` names.
    pub open spec fn subscription(self, handle: int) -> Subscription
        recommends
            self.is_attached(handle),
    {
        self.slots[handle].unwrap()
    }

    /// How many live subscriptions observe a publication made under `scope`.
    pub open spec fn audience(self, scope: ChannelScope) -> nat {
        observers(self.slots, scope)
    }

    /// The channel after `payload` has been published under `scope`.
    ///
    /// A closed channel, or one where nobody observes `scope`, takes nothing.
    /// Otherwise the publication joins the log; if the channel was full, the
    /// oldest publication held is dropped first, and every subscription that
    /// had not read it is moved past it.
    pub open spec fn publish(self, scope: ChannelScope, payload: V) -> Channel<V> {
        if self.closed || self.audience(scope) == 0 {
            self
        } else if self.retained == self.capacity {
            let index = self.base();
            let evicted = self.log[index].scope;
            Channel {
                log: self.log.push(Published { scope, payload }),
                slots: Seq::new(
                    self.slots.len(),
                    |h: int| slot_after_eviction(self.slots[h], index, evicted),
                ),
                ..self
            }
        } else {
            Channel {
                log: self.log.push(Published { scope, payload }),
                retained: self.retained + 1,
                ..self
            }
        }
    }

    /// The channel after a subscription of scope `scope` has taken `handle`.
    pub open spec fn attach(self, handle: int, scope: ChannelScope) -> Channel<V> {
        let sub = Some(Subscription::fresh(scope, self.log.len() as int));
        if 0 <= handle < self.slots.len() {
            Channel { slots: self.slots.update(handle, sub), ..self }
        } else {
            Channel { slots: self.slots.push(sub), ..self }
        }
    }

    /// The channel after the subscription named by `handle` has gone.
    pub open spec fn detach(self, handle: int) -> Channel<V> {
        if 0 <= handle < self.slots.len() {
            Channel { slots: self.slots.update(handle, None), ..self }
        } else {
            self
        }
    }

    /// The channel after shutdown.
    pub open spec fn close(self) -> Channel<V> {
        Channel { closed: true, ..self }
    }

    /// What the next read through `handle` yields.
    ///
    /// A pending lag report comes first. Then comes the oldest observed
    /// publication that the subscription has not examined yet. With none
    /// left, the read is `Closed` on a channel that was shut down and
    /// `Pending` otherwise. A handle without a subscription reads `Closed`.
    pub open spec fn reading(self, handle: int) -> Reading<V> {
        if !self.is_attached(handle) {
            Reading::Closed
        } else {
            let sub = self.subscription(handle);
            if sub.missed > 0 {
                Reading::Lagged(sub.missed)
            } else {
                match first_observed(self.log, sub.scope, sub.position) {
                    Some(index) => Reading::Payload(self.log[index].payload),
                    None => if self.closed {
                        Reading::Closed
                    } else {
                        Reading::Pending
                    },
                }
            }
        }
    }

    /// The channel after one read through `handle`.
    pub open spec fn after_read(self, handle: int) -> Channel<V> {
        if !self.is_attached(handle) {
            self
        } else {
            let sub = self.subscription(handle);
            let next = if sub.missed > 0 {
                sub.after_report()
            } else {
                match first_observed(self.log, sub.scope, sub.position) {
                    Some(index) => sub.after_delivery(index),
                    None => sub.after_scan(self.log.len() as int),
                }
            };
            Channel { slots: self.slots.update(handle, Some(next)), ..self }
        }
    }

    /// What holds of one subscription in every reachable state.
    ///
    /// Its cursor lies within the log and never before the oldest publication
    /// held. What it received are observed publications made after it
    /// subscribed, each once, in the order of publication. Every observed
    /// publication that its cursor has passed was either delivered or counted
    /// as lost; with nothing lost, it received all of them.
    pub open spec fn holds(self, sub: Subscription) -> bool {
        &&& 0 <= sub.start <= sub.position <= self.log.len()
        &&& self.base() <= sub.position
        &&& sub.missed <= sub.lost
        &&& sub.missed <= u64::MAX
        &&& forall|k: int|
            0 <= k < sub.received.len() ==> sub.start <= #[trigger] sub.received[k] < sub.position
                && sub.scope.observes(self.log[sub.received[k]].scope)
        &&& forall|j: int, k: int|
            0 <= j < k < sub.received.len() ==> #[trigger] sub.received[j]
                < #[trigger] sub.received[k]
        &&& observed_between(self.log, sub.scope, sub.start, sub.position).len()
            == sub.received.len() + sub.lost
        &&& sub.lost == 0 ==> sub.received == observed_between(
            self.log,
            sub.scope,
            sub.start,
            sub.position,
        )
    }

    /// What holds of the channel in every reachable state.
    pub open spec fn inv(self) -> bool {
        &&& self.capacity >= 1
        &&& self.retained <= self.capacity
        &&& self.retained <= self.log.len()
        &&& forall|h: int|
            0 <= h < self.slots.len() && (#[trigger] self.slots[h]) is Some ==> self.holds(
                self.slots[h].unwrap(),
            )
    }
}

/// A publication appended to the log changes nothing about the observed
/// publications before it.
pub proof fn lemma_observed_between_push<V>(
    log: Seq<Published<V>>,
    entry: Published<V>,
    scope: ChannelScope,
    lo: int,
    hi: int,
)
    requires
        0 <= lo,
        hi <= log.len(),
    ensures
        observed_between(log.push(entry), scope, lo, hi) == observed_between(log, scope, lo, hi),
    decreases hi - lo,
{
    if hi > lo {
        lemma_observed_between_push(log, entry, scope, lo, hi - 1);
        assert(log.push(entry)[hi - 1] == log[hi - 1]);
    }
}

/// A stretch of the log without observed publications adds nothing.
pub proof fn lemma_observed_between_skip<V>(
    log: Seq<Published<V>>,
    scope: ChannelScope,
    lo: int,
    mid: int,
    hi: int,
)
    requires
        0 <= lo <= mid <= hi <= log.len(),
        forall|j: int| mid <= j < hi ==> !scope.observes(#[trigger] log[j].scope),
    ensures
        observed_between(log, scope, lo, hi) == observed_between(log, scope, lo, mid),
    decreases hi - mid,
{
    if hi > mid {
        lemma_observed_between_skip(log, scope, lo, mid, hi - 1);
        assert(!scope.observes(log[hi - 1].scope));
    }
}

/// Every observed publication of a stretch of the log is listed for it.
pub proof fn lemma_observed_between_lists<V>(
    log: Seq<Published<V>>,
    scope: ChannelScope,
    lo: int,
    hi: int,
    index: int,
)
    requires
        0 <= lo <= index < hi <= log.len(),
        scope.observes(log[index].scope),
    ensures
        observed_between(log, scope, lo, hi).contains(index),
    decreases hi - lo,
{
    let listed = observed_between(log, scope, lo, hi);
    if index == hi - 1 {
        assert(listed[listed.len() - 1] == index);
    } else {
        lemma_observed_between_lists(log, scope, lo, hi - 1, index);
        let rest = observed_between(log, scope, lo, hi - 1);
        let at = choose|at: int| 0 <= at < rest.len() && rest[at] == index;
        assert(listed[at] == index);
    }
}

/// The observed publications of a stretch of the log are those of its first
/// part followed by those of its second part.
pub proof fn lemma_observed_between_split<V>(
    log: Seq<Published<V>>,
    scope: ChannelScope,
    lo: int,
    mid: int,
    hi: int,
)
    requires
        0 <= lo <= mid <= hi <= log.len(),
    ensures
        observed_between(log, scope, lo, hi) == observed_between(log, scope, lo, mid)
            + observed_between(log, scope, mid, hi),
    decreases hi - mid,
{
    let whole = observed_between(log, scope, lo, hi);
    let first = observed_between(log, scope, lo, mid);
    let second = observed_between(log, scope, mid, hi);
    if hi > mid {
        lemma_observed_between_split(log, scope, lo, mid, hi - 1);
        let shorter = observed_between(log, scope, mid, hi - 1);
        if scope.observes(log[hi - 1].scope) {
            assert((first + shorter).push(hi - 1) =~= first + shorter.push(hi - 1));
        }
    } else {
        assert(first + second =~= first);
    }
}

/// The observed publications from `from` to the end of the log are the first
/// one that is found from there on, followed by those behind it; where none
/// is found there are none.
pub proof fn lemma_observed_between_front<V>(log: Seq<Published<V>>, scope: ChannelScope, from: int)
    requires
        0 <= from <= log.len(),
    ensures
        match first_observed(log, scope, from) {
            Some(index) => from <= index < log.len() && observed_between(
                log,
                scope,
                from,
                log.len() as int,
            ) == seq![index] + observed_between(log, scope, index + 1, log.len() as int),
            None => observed_between(log, scope, from, log.len() as int) == Seq::<int>::empty(),
        },
{
    let end = log.len() as int;
    lemma_first_observed(log, scope, from);
    match first_observed(log, scope, from) {
        Some(index) => {
            lemma_observed_between_split(log, scope, from, index, end);
            lemma_observed_between_split(log, scope, index, index + 1, end);
            lemma_observed_between_skip(log, scope, from, from, index);
            assert(observed_between(log, scope, index, index + 1) =~= seq![index]) by {
                assert(observed_between(log, scope, index, index) =~= Seq::<int>::empty());
            }
            assert(observed_between(log, scope, from, from) =~= Seq::<int>::empty());
            assert(observed_between(log, scope, from, end) =~= seq![index] + observed_between(
                log,
                scope,
                index + 1,
                end,
            ));
        },
        None => {
            lemma_observed_between_skip(log, scope, from, from, end);
            assert(observed_between(log, scope, from, from) =~= Seq::<int>::empty());
        },
    }
}

/// What `first_observed` finds is the first observed publication from `from`
/// on, and it finds nothing only where there is none.
pub proof fn lemma_first_observed<V>(log: Seq<Published<V>>, scope: ChannelScope, from: int)
    requires
        0 <= from <= log.len(),
    ensures
        match first_observed(log, scope, from) {
            Some(index) => from <= index < log.len() && scope.observes(log[index].scope)
                && forall|j: int| from <= j < index ==> !scope.observes(#[trigger] log[j].scope),
            None => forall|j: int| from <= j < log.len() ==> !scope.observes(#[trigger] log[j].scope),
        },
    decreases log.len() - from,
{
    if from < log.len() && !scope.observes(log[from].scope) {
        lemma_first_observed(log, scope, from + 1);
    }
}

impl<V> Channel<V> {
    /// What holds of a subscription still holds of it after a publication
    /// was accepted.
    proof fn lemma_holds_after_publish(self, sub: Subscription, scope: ChannelScope, payload: V)
        requires
            self.inv(),
            self.holds(sub),
            !self.closed,
            self.audience(scope) > 0,
        ensures
            self.retained == self.capacity ==> self.publish(scope, payload).holds(
                sub.after_eviction(self.base(), self.log[self.base()].scope),
            ),
            self.retained != self.capacity ==> self.publish(scope, payload).holds(sub),
    {
        let next = self.publish(scope, payload);
        let entry = Published { scope, payload };
        assert(next.log == self.log.push(entry));
        lemma_observed_between_push(self.log, entry, sub.scope, sub.start, sub.position);
        assert forall|k: int| 0 <= k < sub.received.len() implies next.log[sub.received[k]]
            == self.log[#[trigger] sub.received[k]] by {}
        if self.retained == self.capacity {
            let index = self.base();
            let moved = sub.after_eviction(index, self.log[index].scope);
            if sub.position == index {
                lemma_observed_between_push(self.log, entry, sub.scope, sub.start, index + 1);
                assert(next.log[index] == self.log[index]);
                assert(next.holds(moved));
            } else {
                assert(next.holds(moved));
            }
        } else {
            assert(next.holds(sub));
        }
    }

    /// Publishing keeps the channel consistent.
    pub proof fn lemma_publish_keeps_inv(self, scope: ChannelScope, payload: V)
        requires
            self.inv(),
        ensures
            self.publish(scope, payload).inv(),
    {
        let next = self.publish(scope, payload);
        if !self.closed && self.audience(scope) > 0 {
            assert forall|h: int|
                0 <= h < next.slots.len() && (#[trigger] next.slots[h]) is Some implies next.holds(
                next.slots[h].unwrap(),
            ) by {
                assert(self.slots[h] is Some);
                self.lemma_holds_after_publish(self.slots[h].unwrap(), scope, payload);
            }
        }
    }

    /// Subscribing on a free handle keeps the channel consistent.
    pub proof fn lemma_attach_keeps_inv(self, handle: int, scope: ChannelScope)
        requires
            self.inv(),
            0 <= handle <= self.slots.len(),
        ensures
            self.attach(handle, scope).inv(),
    {
        let next = self.attach(handle, scope);
        let sub = Subscription::fresh(scope, self.log.len() as int);
        assert(next.holds(sub));
        assert forall|h: int|
            0 <= h < next.slots.len() && (#[trigger] next.slots[h]) is Some implies next.holds(
            next.slots[h].unwrap(),
        ) by {
            if h != handle {
                assert(self.slots[h] is Some);
            }
        }
    }

    /// Dropping a subscription keeps the channel consistent.
    pub proof fn lemma_detach_keeps_inv(self, handle: int)
        requires
            self.inv(),
        ensures
            self.detach(handle).inv(),
    {
        let next = self.detach(handle);
        assert forall|h: int|
            0 <= h < next.slots.len() && (#[trigger] next.slots[h]) is Some implies next.holds(
            next.slots[h].unwrap(),
        ) by {
            assert(self.slots[h] is Some);
        }
    }

    /// Shutting down keeps the channel consistent.
    pub proof fn lemma_close_keeps_inv(self)
        requires
            self.inv(),
        ensures
            self.close().inv(),
    {
        let next = self.close();
        assert forall|h: int|
            0 <= h < next.slots.len() && (#[trigger] next.slots[h]) is Some implies next.holds(
            next.slots[h].unwrap(),
        ) by {
            assert(self.slots[h] is Some);
        }
    }

    /// Reading keeps the channel consistent.
    pub proof fn lemma_read_keeps_inv(self, handle: int)
        requires
            self.inv(),
        ensures
            self.after_read(handle).inv(),
    {
        let next = self.after_read(handle);
        if self.is_attached(handle) {
            let sub = self.subscription(handle);
            let read = next.slots[handle].unwrap();
            assert(self.holds(sub));
            if sub.missed == 0 {
                lemma_first_observed(self.log, sub.scope, sub.position);
                match first_observed(self.log, sub.scope, sub.position) {
                    Some(index) => {
                        lemma_observed_between_skip(
                            self.log,
                            sub.scope,
                            sub.start,
                            sub.position,
                            index,
                        );
                        assert(read == sub.after_delivery(index));
                        assert(observed_between(self.log, sub.scope, sub.start, index + 1)
                            == observed_between(self.log, sub.scope, sub.start, index).push(index));
                        assert forall|k: int| 0 <= k < read.received.len() implies sub.start
                            <= #[trigger] read.received[k] < read.position && sub.scope.observes(
                            self.log[read.received[k]].scope,
                        ) by {
                            if k < sub.received.len() {
                                assert(read.received[k] == sub.received[k]);
                            }
                        }
                        assert forall|j: int, k: int|
                            0 <= j < k < read.received.len() implies #[trigger] read.received[j]
                            < #[trigger] read.received[k] by {
                            assert(read.received[j] == sub.received[j]);
                            if k < sub.received.len() {
                                assert(read.received[k] == sub.received[k]);
                            }
                        }
                        assert(next.holds(read));
                    },
                    None => {
                        lemma_observed_between_skip(
                            self.log,
                            sub.scope,
                            sub.start,
                            sub.position,
                            self.log.len() as int,
                        );
                        assert(next.holds(read));
                    },
                }
            } else {
                assert(next.holds(read));
            }
            assert forall|h: int|
                0 <= h < next.slots.len() && (#[trigger] next.slots[h]) is Some implies next.holds(
                next.slots[h].unwrap(),
            ) by {
                if h != handle {
                    assert(self.slots[h] is Some);
                    assert(self.holds(self.slots[h].unwrap()));
                }
            }
        }
    }
}

} // verus!
