//! The life of one live connection, as a state machine.
//!
//! Whoever owns the connection reports what happened on it, one event at a
//! time, and carries out the action that comes back. The machine subscribes,
//! hands out one outbound write at a time, keeps an idle connection alive,
//! goes on after a lag, and lets go of its subscription as soon as the
//! connection ends.

use vstd::prelude::*;
use crate::broadcaster::{Broadcaster, Delivery, SubscriptionHandle};
use crate::channel::{Channel, Reading};
use crate::message::Payload;
use crate::scope::ChannelScope;

verus! {

/// Where a connection stands.
#[derive(Clone, Copy, Debug, PartialEq, Eq, Structural)]
pub enum Phase {
    /// Accepted, not subscribed yet.
    Connecting,
    /// Subscribed, nothing read yet.
    Subscribed,
    /// Reading the subscription and writing to the transport.
    Forwarding,
    /// The peer went away or closed the connection.
    ClientClosed,
    /// A write to the transport failed.
    TransportError,
    /// The broadcaster was shut down and nothing was left to read.
    ServerShutdown,
    /// Over; nothing is forwarded any more.
    Terminated,
}

/// What happened on the connection.
#[derive(Clone, Copy, Debug, PartialEq, Eq, Structural)]
pub enum Event {
    /// The connection is up, or something may have been published.
    Wake,
    /// The outbound write handed out last is done.
    Written,
    /// The outbound write handed out last failed.
    WriteFailed,
    /// The peer went away or closed the connection.
    PeerClosed,
    /// The keep-alive interval passed without a message.
    Idle,
}

/// What to do on the connection next.
#[derive(Clone, Debug, PartialEq, Eq)]
pub enum Action<T> {
    /// Write this to the transport, then report `Written` or `WriteFailed`.
    Write(T),
    /// Tell the client that it missed this many messages, then report
    /// `Written` or `WriteFailed`.
    Notify(u64),
    /// Write a keep-alive, then report `Written` or `WriteFailed`.
    KeepAlive,
    /// Nothing to write; wait for the next event.
    Wait,
    /// Close the transport.
    Close,
    /// The connection is over.
    Done,
}

/// The mathematical value of an [`Action`].
pub enum Act<V> {
    Write(V),
    Notify(nat),
    KeepAlive,
    Wait,
    Close,
    Done,
}

impl<T: Payload> View for Action<T> {
    type V = Act<T::V>;

    open spec fn view(&self) -> Act<T::V> {
        match *self {
            Action::Write(payload) => Act::Write(payload@),
            Action::Notify(count) => Act::Notify(count as nat),
            Action::KeepAlive => Act::KeepAlive,
            Action::Wait => Act::Wait,
            Action::Close => Act::Close,
            Action::Done => Act::Done,
        }
    }
}

/// The mathematical model of a connection.
pub struct Session {
    pub phase: Phase,
    /// What the connection subscribes to.
    pub scope: ChannelScope,
    /// Whether an outbound write is under way.
    pub writing: bool,
    /// The subscription that the connection holds, if any.
    pub handle: Option<int>,
}

impl Session {
    /// A connection that was just accepted.
    pub open spec fn fresh(scope: ChannelScope) -> Session {
        Session { phase: Phase::Connecting, scope, writing: false, handle: None }
    }

    /// Whether the connection holds a subscription and forwards.
    pub open spec fn is_live(self) -> bool {
        self.phase == Phase::Subscribed || self.phase == Phase::Forwarding
    }

    /// Whether the connection has ended, for whatever reason.
    pub open spec fn is_over(self) -> bool {
        !self.is_live() && self.phase != Phase::Connecting
    }

    /// The connection after it ended in `phase`: it holds no subscription and
    /// writes nothing.
    pub open spec fn ended(self, phase: Phase) -> Session {
        Session { phase, writing: false, handle: None, ..self }
    }

    /// The handle that the connection reads through; one that names no
    /// subscription where it holds none.
    pub open spec fn reads_through(self) -> int {
        match self.handle {
            Some(handle) => handle,
            None => -1,
        }
    }

    /// The connection after it read its subscription on `channel`.
    ///
    /// A message and a lag report are handed on as one outbound write each,
    /// and the connection goes on forwarding. With nothing to read it waits.
    /// When the channel is closed for it, the connection ends.
    pub open spec fn after_poll<V>(self, channel: Channel<V>) -> Session {
        match channel.reading(self.reads_through()) {
            Reading::Payload(_) => Session { phase: Phase::Forwarding, writing: true, ..self },
            Reading::Lagged(_) => Session { phase: Phase::Forwarding, writing: true, ..self },
            Reading::Pending => Session { phase: Phase::Forwarding, writing: false, ..self },
            Reading::Closed => self.ended(Phase::ServerShutdown),
        }
    }

    /// What the connection does after it read its subscription on `channel`.
    pub open spec fn poll_act<V>(self, channel: Channel<V>) -> Act<V> {
        match channel.reading(self.reads_through()) {
            Reading::Payload(payload) => Act::Write(payload),
            Reading::Lagged(count) => Act::Notify(count),
            Reading::Pending => Act::Wait,
            Reading::Closed => Act::Close,
        }
    }

    /// The channel after the connection read its subscription on it.
    pub open spec fn poll_channel<V>(self, channel: Channel<V>) -> Channel<V> {
        match channel.reading(self.reads_through()) {
            Reading::Closed => channel.after_read(self.reads_through()).detach(self.reads_through()),
            _ => channel.after_read(self.reads_through()),
        }
    }

    /// Whether `event` makes a live connection read its subscription: the
    /// last write is done, or something may be there and no write is under
    /// way.
    pub open spec fn polls_on(self, event: Event) -> bool {
        event == Event::Written || (event == Event::Wake && !self.writing)
    }

    /// The connection after `event`, for every case but the one in which it
    /// subscribes.
    pub open spec fn after<V>(self, channel: Channel<V>, event: Event) -> Session {
        match self.phase {
            Phase::Terminated => self,
            Phase::ClientClosed | Phase::TransportError | Phase::ServerShutdown => self.ended(
                Phase::Terminated,
            ),
            Phase::Connecting | Phase::Subscribed | Phase::Forwarding => match event {
                Event::PeerClosed => self.ended(Phase::ClientClosed),
                Event::WriteFailed => self.ended(Phase::TransportError),
                Event::Idle => if self.is_live() && !self.writing {
                    Session { writing: true, ..self }
                } else {
                    self
                },
                Event::Wake | Event::Written => if self.is_live() && self.polls_on(event) {
                    self.after_poll(channel)
                } else {
                    self
                },
            },
        }
    }

    /// What the connection does on `event`, for every case but the one in
    /// which it subscribes.
    pub open spec fn act<V>(self, channel: Channel<V>, event: Event) -> Act<V> {
        match self.phase {
            Phase::Terminated | Phase::ClientClosed | Phase::TransportError | Phase::ServerShutdown => Act::Done,
            Phase::Connecting | Phase::Subscribed | Phase::Forwarding => match event {
                Event::PeerClosed | Event::WriteFailed => Act::Close,
                Event::Idle => if self.is_live() && !self.writing {
                    Act::KeepAlive
                } else {
                    Act::Wait
                },
                Event::Wake | Event::Written => if self.is_live() && self.polls_on(event) {
                    self.poll_act(channel)
                } else {
                    Act::Wait
                },
            },
        }
    }

    /// The channel after the connection saw `event`, for every case but the
    /// one in which it subscribes: a connection that ends lets its
    /// subscription go, one that reads moves its cursor.
    pub open spec fn channel_after<V>(self, channel: Channel<V>, event: Event) -> Channel<V> {
        if !self.is_live() {
            channel
        } else {
            match event {
                Event::PeerClosed | Event::WriteFailed => channel.detach(self.reads_through()),
                Event::Idle => channel,
                Event::Wake | Event::Written => if self.polls_on(event) {
                    self.poll_channel(channel)
                } else {
                    channel
                },
            }
        }
    }

    /// Whether `event` makes the connection subscribe: it is new, and the
    /// event is none that ends it.
    pub open spec fn subscribes_on(self, event: Event) -> bool {
        self.phase == Phase::Connecting && event != Event::PeerClosed && event
            != Event::WriteFailed
    }
}

/// Whether a connection that stood at `before`, reading `channel`, stands at
/// `after` with the channel at `next` and is told `act` once it has taken
/// `event`.
///
/// A new connection that is not ended by the event subscribes, on the least
/// handle that is free, and waits. Every other case is what
/// [`Session::after`], [`Session::channel_after`] and [`Session::act`] say.
pub open spec fn stepped<V>(
    before: Session,
    channel: Channel<V>,
    event: Event,
    after: Session,
    next: Channel<V>,
    act: Act<V>,
) -> bool {
    if before.subscribes_on(event) {
        &&& after.handle is Some
        &&& 0 <= after.reads_through() <= channel.slots.len()
        &&& !channel.is_attached(after.reads_through())
        &&& forall|j: int| 0 <= j < after.reads_through() ==> channel.is_attached(j)
        &&& next == channel.attach(after.reads_through(), before.scope)
        &&& after == (Session { phase: Phase::Subscribed, handle: after.handle, ..before })
        &&& act == Act::<V>::Wait
    } else {
        &&& after == before.after(channel, event)
        &&& next == before.channel_after(channel, event)
        &&& act == before.act(channel, event)
    }
}

/// The state of one live connection.
pub struct SubscriptionManager {
    phase: Phase,
    scope: ChannelScope,
    writing: bool,
    handle: Option<SubscriptionHandle>,
}

impl SubscriptionManager {
    /// What the connection is, as a value.
    pub closed spec fn view(&self) -> Session {
        Session {
            phase: self.phase,
            scope: self.scope,
            writing: self.writing,
            handle: match self.handle {
                Some(handle) => Some(handle@),
                None => None,
            },
        }
    }

    /// The manager is consistent: it holds a subscription exactly while the
    /// connection is live.
    pub closed spec fn wf(&self) -> bool {
        self@.is_live() <==> self.handle is Some
    }

    /// Makes the manager of a connection that was just accepted and is to
    /// subscribe under `scope`.
    pub fn new(scope: ChannelScope) -> (manager: SubscriptionManager)
        ensures
            manager.wf(),
            manager@ == Session::fresh(scope),
    {
        SubscriptionManager { phase: Phase::Connecting, scope, writing: false, handle: None }
    }

    /// Where the connection stands.
    pub fn phase(&self) -> (phase: Phase)
        ensures
            phase == self@.phase,
    {
        self.phase
    }

    /// Whether the connection is over for good.
    pub fn is_terminated(&self) -> (over: bool)
        ensures
            over == (self@.phase == Phase::Terminated),
    {
        match self.phase {
            Phase::Terminated => true,
            _ => false,
        }
    }

    /// Ends the connection in `phase` and lets its subscription go.
    fn finish<T: Payload>(&mut self, queue: &mut Broadcaster<T>, phase: Phase)
        requires
            old(queue).wf(),
            old(self).wf(),
            phase != Phase::Subscribed && phase != Phase::Forwarding,
        ensures
            final(queue).wf(),
            final(self).wf(),
            final(self)@ == old(self)@.ended(phase),
            final(queue)@ == (if old(self)@.handle is Some {
                old(queue)@.detach(old(self)@.reads_through())
            } else {
                old(queue)@
            }),
    {
        let held = self.handle.take();
        match held {
            Some(handle) => {
                queue.unsubscribe(handle);
            },
            None => {},
        }
        self.phase = phase;
        self.writing = false;
    }

    /// Reads the subscription once and decides what to write.
    fn poll<T: Payload>(&mut self, queue: &mut Broadcaster<T>) -> (action: Action<T>)
        requires
            old(queue).wf(),
            old(self).wf(),
            old(self)@.is_live(),
        ensures
            final(queue).wf(),
            final(self).wf(),
            final(self)@ == old(self)@.after_poll(old(queue)@),
            final(queue)@ == old(self)@.poll_channel(old(queue)@),
            action@ == old(self)@.poll_act(old(queue)@),
    {
        let delivery = match &self.handle {
            Some(handle) => queue.next(handle),
            None => Delivery::Closed,
        };
        match delivery {
            Delivery::Message(payload) => {
                self.phase = Phase::Forwarding;
                self.writing = true;
                Action::Write(payload)
            },
            Delivery::Lagged(count) => {
                self.phase = Phase::Forwarding;
                self.writing = true;
                Action::Notify(count)
            },
            Delivery::Pending => {
                self.phase = Phase::Forwarding;
                self.writing = false;
                Action::Wait
            },
            Delivery::Closed => {
                self.finish(queue, Phase::ServerShutdown);
                Action::Close
            },
        }
    }

    /// Takes one event of the connection and says what to do next.
    ///
    /// A new connection subscribes on its first event, on the least handle
    /// that is free, and waits. A live one
    /// reads its subscription when the last write is done, or when woken
    /// while no write is under way, so that never more than one write is in
    /// flight: a message is handed out to be written; a lag is handed out as
    /// a notice and forwarding goes on; with nothing to read the connection
    /// waits; when the broadcaster has shut down the connection ends. An
    /// idle interval without a write under way asks for a keep-alive. When
    /// the peer goes away or a write fails, the subscription is let go at
    /// once and the connection ends; its next event terminates it, and from
    /// then on nothing happens.
    pub fn step<T: Payload>(&mut self, queue: &mut Broadcaster<T>, event: Event) -> (action: Action<
        T,
    >)
        requires
            old(queue).wf(),
            old(self).wf(),
        ensures
            final(queue).wf(),
            final(self).wf(),
            stepped(old(self)@, old(queue)@, event, final(self)@, final(queue)@, action@),
    {
        match self.phase {
            Phase::Terminated => Action::Done,
            Phase::ClientClosed | Phase::TransportError | Phase::ServerShutdown => {
                self.phase = Phase::Terminated;
                self.writing = false;
                Action::Done
            },
            Phase::Connecting => match event {
                Event::PeerClosed => {
                    self.finish(queue, Phase::ClientClosed);
                    Action::Close
                },
                Event::WriteFailed => {
                    self.finish(queue, Phase::TransportError);
                    Action::Close
                },
                _ => {
                    let handle = queue.subscribe(self.scope);
                    self.handle = Some(handle);
                    self.phase = Phase::Subscribed;
                    Action::Wait
                },
            },
            Phase::Subscribed | Phase::Forwarding => match event {
                Event::PeerClosed => {
                    self.finish(queue, Phase::ClientClosed);
                    Action::Close
                },
                Event::WriteFailed => {
                    self.finish(queue, Phase::TransportError);
                    Action::Close
                },
                Event::Idle => {
                    if self.writing {
                        Action::Wait
                    } else {
                        self.writing = true;
                        Action::KeepAlive
                    }
                },
                Event::Written => self.poll(queue),
                Event::Wake => {
                    if self.writing {
                        Action::Wait
                    } else {
                        self.poll(queue)
                    }
                },
            },
        }
    }
}

} // verus!
