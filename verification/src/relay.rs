//! The relay profile: a duplex connection whose inbound frames are handed on
//! verbatim to every connected peer. Nothing is recorded and there are no
//! rooms; everything travels under the global scope.

use vstd::prelude::*;
use crate::broadcaster::Broadcaster;
use crate::channel::Channel;
use crate::message::Payload;
use crate::scope::ChannelScope;
use crate::subscription::{stepped, Action, Event, Phase, Session, SubscriptionManager};

verus! {

/// One frame of a duplex connection.
#[derive(Clone, Debug, PartialEq, Eq)]
pub enum Frame {
    Text(String),
    Binary(Vec<u8>),
    Ping(Vec<u8>),
    Pong(Vec<u8>),
    /// The peer closes the connection.
    Close,
}

/// The mathematical value of a [`Frame`].
pub enum FrameView {
    Text(Seq<char>),
    Binary(Seq<u8>),
    Ping(Seq<u8>),
    Pong(Seq<u8>),
    Close,
}

impl View for Frame {
    type V = FrameView;

    open spec fn view(&self) -> FrameView {
        match *self {
            Frame::Text(text) => FrameView::Text(text@),
            Frame::Binary(bytes) => FrameView::Binary(bytes@),
            Frame::Ping(bytes) => FrameView::Ping(bytes@),
            Frame::Pong(bytes) => FrameView::Pong(bytes@),
            Frame::Close => FrameView::Close,
        }
    }
}

/// Copies a run of bytes.
fn copy_bytes(bytes: &Vec<u8>) -> (copy: Vec<u8>)
    ensures
        copy@ == bytes@,
{
    let mut copy: Vec<u8> = Vec::new();
    let mut i: usize = 0;
    while i < bytes.len()
        invariant
            i <= bytes.len(),
            copy@ == bytes@.take(i as int),
        decreases bytes.len() - i,
    {
        copy.push(bytes[i]);
        assert(bytes@.take(i + 1) =~= bytes@.take(i as int).push(bytes@[i as int]));
        i += 1;
    }
    assert(bytes@.take(i as int) =~= bytes@);
    copy
}

impl Payload for Frame {
    fn duplicate(&self) -> (copy: Self) {
        match self {
            Frame::Text(text) => Frame::Text(text.clone()),
            Frame::Binary(bytes) => Frame::Binary(copy_bytes(bytes)),
            Frame::Ping(bytes) => Frame::Ping(copy_bytes(bytes)),
            Frame::Pong(bytes) => Frame::Pong(copy_bytes(bytes)),
            Frame::Close => Frame::Close,
        }
    }
}

/// What became of one inbound frame.
#[derive(Clone, Copy, Debug, PartialEq, Eq, Structural)]
pub enum Inbound {
    /// It was handed on to this many peers. Read on.
    Relayed(usize),
    /// Nobody took it: no peer is connected, or the relay has shut down.
    /// Read on.
    Unheard,
    /// The inbound side is over: the peer closed, or its stream ended.
    Stop,
}

/// Whether an inbound item ends the inbound side: the end of the stream, a
/// read error, or a close frame.
pub open spec fn ends_inbound(inbound: Option<FrameView>) -> bool {
    inbound is None || inbound == Some(FrameView::Close)
}

/// Accepts a duplex connection: makes its manager and subscribes it under the
/// global scope, so that it sees what its peers send from now on.
pub fn handle_socket(queue: &mut Broadcaster<Frame>) -> (manager: SubscriptionManager)
    requires
        old(queue).wf(),
    ensures
        final(queue).wf(),
        manager.wf(),
        manager@.phase == Phase::Subscribed,
        manager@.scope == ChannelScope::Global,
        !manager@.writing,
        manager@.handle is Some,
        0 <= manager@.reads_through() <= old(queue)@.slots.len(),
        !old(queue)@.is_attached(manager@.reads_through()),
        forall|j: int| 0 <= j < manager@.reads_through() ==> old(queue)@.is_attached(j),
        final(queue)@ == old(queue)@.attach(manager@.reads_through(), ChannelScope::Global),
{
    let mut manager = SubscriptionManager::new(ChannelScope::Global);
    let _ = manager.step(queue, Event::Wake);
    manager
}

/// Takes one item of the inbound side of a connection, `None` standing for
/// the end of the stream or a read error.
///
/// A close frame and the end of the stream stop the inbound side; nothing is
/// published. Every other frame is published as it is under the global
/// scope, and reading goes on whether anybody took it or not.
pub fn recv_from_client(queue: &mut Broadcaster<Frame>, inbound: Option<Frame>) -> (step: Inbound)
    requires
        old(queue).wf(),
    ensures
        final(queue).wf(),
        match inbound {
            Some(frame) => if frame@ == FrameView::Close {
                step == Inbound::Stop && final(queue)@ == old(queue)@
            } else {
                final(queue)@ == old(queue)@.publish(ChannelScope::Global, frame@) && (match step {
                    Inbound::Relayed(audience) => !old(queue)@.closed && audience > 0 && audience
                        == old(queue)@.audience(ChannelScope::Global),
                    Inbound::Unheard => old(queue)@.closed || old(queue)@.audience(
                        ChannelScope::Global,
                    ) == 0,
                    Inbound::Stop => false,
                })
            },
            None => step == Inbound::Stop && final(queue)@ == old(queue)@,
        },
{
    match inbound {
        Some(frame) => {
            let closing = match &frame {
                Frame::Close => true,
                _ => false,
            };
            if closing {
                Inbound::Stop
            } else {
                match queue.publish(ChannelScope::Global, frame) {
                    Ok(audience) => if audience == 0 {
                        Inbound::Unheard
                    } else {
                        Inbound::Relayed(audience)
                    },
                    Err(_) => Inbound::Unheard,
                }
            }
        },
        None => Inbound::Stop,
    }
}

/// Whether a connection, on `event`, would hand out a lag notice.
pub open spec fn notices_lag(session: Session, channel: Channel<FrameView>, event: Event) -> bool {
    !session.subscribes_on(event) && session.act(channel, event) is Notify
}

/// Takes one event of the outbound side of a connection and says what to do
/// next. This is [`SubscriptionManager::step`], but for a lag: frames have no
/// form in which to tell the peer about it, so the notice is taken as written
/// at once and the subscription is read again.
pub fn recv_broadcast(
    manager: &mut SubscriptionManager,
    queue: &mut Broadcaster<Frame>,
    event: Event,
) -> (action: Action<Frame>)
    requires
        old(queue).wf(),
        old(manager).wf(),
    ensures
        final(queue).wf(),
        final(manager).wf(),
        !(action@ is Notify),
        !notices_lag(old(manager)@, old(queue)@, event) ==> stepped(
            old(manager)@,
            old(queue)@,
            event,
            final(manager)@,
            final(queue)@,
            action@,
        ),
        notices_lag(old(manager)@, old(queue)@, event) ==> {
            let noticed = old(manager)@.after(old(queue)@, event);
            let read = old(manager)@.channel_after(old(queue)@, event);
            &&& final(manager)@ == noticed.after(read, Event::Written)
            &&& final(queue)@ == noticed.channel_after(read, Event::Written)
            &&& action@ == noticed.act(read, Event::Written)
        },
{
    let first = manager.step(queue, event);
    match first {
        Action::Notify(_) => {
            proof {
                let handle = old(manager)@.reads_through();
                assert(old(queue)@.reading(handle) is Lagged);
                assert(old(queue)@.is_attached(handle));
                assert(queue@.subscription(handle).missed == 0);
                assert(!(queue@.reading(handle) is Lagged));
            }
            manager.step(queue, Event::Written)
        },
        other => other,
    }
}

} // verus!
