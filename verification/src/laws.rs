//! What holds of the engine whatever is done with it.
//!
//! Each statement here is about the mathematical model that the executable
//! functions are proved to follow, so it holds of every run of them.

use vstd::prelude::*;
use crate::channel::{
    lemma_observed_between_front, lemma_observed_between_lists, observed_between, Channel,
};
use crate::message::{MessageView, NewMessageView};
use crate::error::ChatError;
use crate::registry::Registry;
use crate::room::{joined, lemma_joined, NewRoomView};
use crate::scope::ChannelScope;
use crate::state::ChatState;
use crate::store::{ascending, chronological, in_room, lemma_selection, Archive};
use crate::subscription::{Act, Event, Phase, Session};

verus! {

/// One request to post a message, with the time at which it is stamped.
pub struct Posting {
    pub request: NewMessageView,
    pub timestamp: int,
}

/// The engine after a series of requests to post, taken one after the other.
pub open spec fn after_sends(state: ChatState, postings: Seq<Posting>) -> ChatState
    decreases postings.len(),
{
    if postings.len() == 0 {
        state
    } else {
        after_sends(state, postings.drop_last()).after_send(
            postings.last().request,
            postings.last().timestamp,
        )
    }
}

/// The messages that a series of requests puts on record when the first of
/// them gets the id `first_id`: one for each request, in their order, with
/// ids that count up.
pub open spec fn recorded(first_id: int, postings: Seq<Posting>) -> Seq<MessageView> {
    Seq::new(
        postings.len(),
        |k: int|
            MessageView {
                id: first_id + k,
                timestamp: postings[k].timestamp,
                sender: postings[k].request.sender,
                message: postings[k].request.message,
                room_id: postings[k].request.room_id,
            },
    )
}

/// Whether every request of the series goes to the room `room`.
pub open spec fn all_to(postings: Seq<Posting>, room: int) -> bool {
    forall|k: int| 0 <= k < postings.len() ==> (#[trigger] postings[k]).request.room_id == room
}

/// However many requests to post are taken, in whatever order they arrive,
/// each one that names an existing room puts exactly one message on record:
/// the record grows by one message for each request, in the order in which
/// the requests were taken, with ids that count up from the next free one.
/// Nothing is lost and nothing is recorded twice.
///
/// The requests must name existing rooms, and the ids of the record must
/// suffice for them.
pub proof fn lemma_every_send_is_recorded_once(state: ChatState, postings: Seq<Posting>)
    requires
        state.inv(),
        forall|k: int|
            0 <= k < postings.len() ==> state.rooms.has_room(
                (#[trigger] postings[k]).request.room_id,
            ),
        state.archive.next_id + postings.len() <= i32::MAX,
    ensures
        after_sends(state, postings).inv(),
        after_sends(state, postings).archive.log == state.archive.log + recorded(
            state.archive.next_id,
            postings,
        ),
        after_sends(state, postings).archive.next_id == state.archive.next_id + postings.len(),
        forall|id: int| after_sends(state, postings).rooms.has_room(id) <==> state.rooms.has_room(id),
    decreases postings.len(),
{
    if postings.len() > 0 {
        let front = postings.drop_last();
        let last = postings.last();
        assert forall|k: int| 0 <= k < front.len() implies state.rooms.has_room(
            (#[trigger] front[k]).request.room_id,
        ) by {
            assert(front[k] == postings[k]);
        }
        lemma_every_send_is_recorded_once(state, front);
        let middle = after_sends(state, front);
        assert(postings[postings.len() - 1] == last);
        assert(middle.rooms.has_room(last.request.room_id));
        middle.lemma_after_send(last.request, last.timestamp);
        middle.rooms.lemma_with_participant(last.request.room_id, last.request.sender);
        let after = after_sends(state, postings);
        assert(after.archive.log =~= state.archive.log + recorded(
            state.archive.next_id,
            postings,
        ));
    } else {
        assert(state.archive.log =~= state.archive.log + recorded(
            state.archive.next_id,
            postings,
        ));
    }
}

/// After any number of requests to post in one room, the history of that
/// room is what it was, followed by exactly one message for each request, in
/// the order in which the requests were taken. Its ids rise strictly.
pub proof fn lemma_history_lists_every_send(state: ChatState, postings: Seq<Posting>, room: int)
    requires
        state.inv(),
        state.rooms.has_room(room),
        all_to(postings, room),
        state.archive.next_id + postings.len() <= i32::MAX,
    ensures
        after_sends(state, postings).archive.history(room) == state.archive.history(room)
            + recorded(state.archive.next_id, postings),
        after_sends(state, postings).archive.history(room).len() == state.archive.history(
            room,
        ).len() + postings.len(),
        ascending(after_sends(state, postings).archive.history(room)),
{
    assert forall|k: int| 0 <= k < postings.len() implies state.rooms.has_room(
        (#[trigger] postings[k]).request.room_id,
    ) by {}
    lemma_every_send_is_recorded_once(state, postings);
    let after = after_sends(state, postings);
    let fresh = recorded(state.archive.next_id, postings);
    Seq::filter_distributes_over_add(state.archive.log, fresh, in_room(room));
    lemma_all_kept(fresh, room);
    lemma_selection(after.archive.log, in_room(room));
}

/// A selection by room keeps a list whose messages all belong to the room.
proof fn lemma_all_kept(list: Seq<MessageView>, room: int)
    requires
        forall|k: int| 0 <= k < list.len() ==> (#[trigger] list[k]).room_id == room,
    ensures
        list.filter(in_room(room)) == list,
    decreases list.len(),
{
    reveal(Seq::filter);
    if list.len() > 0 {
        let front = list.drop_last();
        assert forall|k: int| 0 <= k < front.len() implies (#[trigger] front[k]).room_id
            == room by {
            assert(front[k] == list[k]);
        }
        lemma_all_kept(front, room);
        assert(list[list.len() - 1].room_id == room);
        assert(front.push(list.last()) =~= list);
    }
}

/// The history of a room has ids that rise strictly, and where the
/// timestamps of the record never fall, neither do those of the history.
pub proof fn lemma_history_is_ordered(archive: Archive, room: int)
    requires
        archive.inv(),
    ensures
        ascending(archive.history(room)),
        chronological(archive.log) ==> chronological(archive.history(room)),
{
    lemma_selection(archive.log, in_room(room));
}

/// A message stamped no earlier than the last one on record keeps the
/// timestamps of the record from falling.
pub proof fn lemma_clock_keeps_order(archive: Archive, message: MessageView)
    requires
        chronological(archive.log),
        archive.log.len() > 0 ==> archive.log.last().timestamp <= message.timestamp,
    ensures
        chronological(archive.appended(message).log),
{
    let after = archive.appended(message).log;
    assert forall|i: int, j: int| 0 <= i < j < after.len() implies (#[trigger] after[i]).timestamp
        <= (#[trigger] after[j]).timestamp by {
        assert(after[i] == archive.log[i]);
        if j < archive.log.len() {
            assert(after[j] == archive.log[j]);
        } else if i < archive.log.len() - 1 {
            assert(archive.log[i].timestamp <= archive.log[archive.log.len() - 1].timestamp);
        }
    }
}

/// One thing that can happen to a channel.
pub enum Step<V> {
    /// Something is published.
    Publish { scope: ChannelScope, payload: V },
    /// A subscription is made on a free handle.
    Subscribe { handle: int, scope: ChannelScope },
    /// A subscription is read.
    Read { handle: int },
    /// A subscription is dropped.
    Unsubscribe { handle: int },
    /// The channel is shut down.
    Close,
}

/// The channel after one step. A subscription on a handle that is taken, or
/// that lies beyond the first free one after the last, does not happen.
pub open spec fn after_step<V>(channel: Channel<V>, step: Step<V>) -> Channel<V> {
    match step {
        Step::Publish { scope, payload } => channel.publish(scope, payload),
        Step::Subscribe { handle, scope } => if 0 <= handle <= channel.slots.len()
            && !channel.is_attached(handle) {
            channel.attach(handle, scope)
        } else {
            channel
        },
        Step::Read { handle } => channel.after_read(handle),
        Step::Unsubscribe { handle } => channel.detach(handle),
        Step::Close => channel.close(),
    }
}

/// The channel after a series of steps, taken one after the other.
pub open spec fn after_steps<V>(channel: Channel<V>, steps: Seq<Step<V>>) -> Channel<V>
    decreases steps.len(),
{
    if steps.len() == 0 {
        channel
    } else {
        after_step(after_steps(channel, steps.drop_last()), steps.last())
    }
}

/// Whatever happens to a channel, in whatever order, it stays consistent:
/// every state that a new channel can reach satisfies what is said of
/// channels and subscriptions, and holds no more than its capacity.
pub proof fn lemma_every_reachable_channel_is_consistent<V>(capacity: nat, steps: Seq<Step<V>>)
    requires
        capacity >= 1,
    ensures
        after_steps(Channel::<V>::empty(capacity), steps).inv(),
        after_steps(Channel::<V>::empty(capacity), steps).capacity == capacity,
        after_steps(Channel::<V>::empty(capacity), steps).retained <= capacity,
    decreases steps.len(),
{
    if steps.len() > 0 {
        lemma_every_reachable_channel_is_consistent(capacity, steps.drop_last());
        let before = after_steps(Channel::<V>::empty(capacity), steps.drop_last());
        match steps.last() {
            Step::Publish { scope, payload } => {
                before.lemma_publish_keeps_inv(scope, payload);
            },
            Step::Subscribe { handle, scope } => {
                if 0 <= handle <= before.slots.len() {
                    before.lemma_attach_keeps_inv(handle, scope);
                }
            },
            Step::Read { handle } => {
                before.lemma_read_keeps_inv(handle);
            },
            Step::Unsubscribe { handle } => {
                before.lemma_detach_keeps_inv(handle);
            },
            Step::Close => {
                before.lemma_close_keeps_inv();
            },
        }
    }
}

/// A subscription that lost nothing has received every observed publication
/// that its cursor has passed since it subscribed: each exactly once, in the
/// order of publication.
pub proof fn lemma_delivered_exactly_once<V>(channel: Channel<V>, handle: int)
    requires
        channel.inv(),
        channel.is_attached(handle),
        channel.subscription(handle).lost == 0,
    ensures
        channel.subscription(handle).received == observed_between(
            channel.log,
            channel.subscription(handle).scope,
            channel.subscription(handle).start,
            channel.subscription(handle).position,
        ),
{
    assert(channel.holds(channel.slots[handle].unwrap()));
}

/// A subscription that was made before a publication, observes it, lost
/// nothing and has read past it, has received it, and received it once.
pub proof fn lemma_received_exactly_once<V>(channel: Channel<V>, handle: int, index: int)
    requires
        channel.inv(),
        channel.is_attached(handle),
        channel.subscription(handle).lost == 0,
        channel.subscription(handle).start <= index < channel.subscription(handle).position,
        channel.subscription(handle).scope.observes(channel.log[index].scope),
    ensures
        exists|k: int|
            0 <= k < channel.subscription(handle).received.len() && #[trigger] channel.subscription(
                handle,
            ).received[k] == index && forall|j: int|
                0 <= j < channel.subscription(handle).received.len() && channel.subscription(
                    handle,
                ).received[j] == index ==> j == k,
{
    let sub = channel.subscription(handle);
    assert(channel.holds(channel.slots[handle].unwrap()));
    lemma_observed_between_lists(channel.log, sub.scope, sub.start, sub.position, index);
    let k = choose|k: int| 0 <= k < sub.received.len() && sub.received[k] == index;
    assert forall|j: int| 0 <= j < sub.received.len() && sub.received[j] == index implies j
        == k by {
        if j < k {
            assert(sub.received[j] < sub.received[k]);
        }
        if k < j {
            assert(sub.received[k] < sub.received[j]);
        }
    }
    assert(sub.received[k] == index);
}

/// Whatever a subscription received, it received once, and in the order of
/// publication: the places in the log of what it received rise strictly.
pub proof fn lemma_delivered_in_order<V>(channel: Channel<V>, handle: int, earlier: int, later: int)
    requires
        channel.inv(),
        channel.is_attached(handle),
        0 <= earlier < later < channel.subscription(handle).received.len(),
    ensures
        channel.subscription(handle).received[earlier] < channel.subscription(handle).received[later],
{
    assert(channel.holds(channel.slots[handle].unwrap()));
}

/// Two subscriptions receive what they both receive in the same order.
pub proof fn lemma_same_relative_order<V>(
    channel: Channel<V>,
    one: int,
    other: int,
    a: int,
    b: int,
    c: int,
    d: int,
)
    requires
        channel.inv(),
        channel.is_attached(one),
        channel.is_attached(other),
        0 <= a < b < channel.subscription(one).received.len(),
        0 <= c < channel.subscription(other).received.len(),
        0 <= d < channel.subscription(other).received.len(),
        channel.subscription(one).received[a] == channel.subscription(other).received[c],
        channel.subscription(one).received[b] == channel.subscription(other).received[d],
    ensures
        c < d,
{
    assert(channel.holds(channel.slots[one].unwrap()));
    assert(channel.holds(channel.slots[other].unwrap()));
    let first = channel.subscription(one).received;
    let second = channel.subscription(other).received;
    assert(first[a] < first[b]);
    if d < c {
        assert(second[d] < second[c]);
    }
}

/// A subscription never receives what was published before it was made:
/// whatever it received stands in the log at or after the place where the
/// log ended when it subscribed, and was published under a scope that it
/// observes.
pub proof fn lemma_nothing_from_before<V>(channel: Channel<V>, handle: int, k: int)
    requires
        channel.inv(),
        channel.is_attached(handle),
        0 <= k < channel.subscription(handle).received.len(),
    ensures
        channel.subscription(handle).start <= channel.subscription(handle).received[k]
            < channel.log.len(),
        channel.subscription(handle).scope.observes(
            channel.log[channel.subscription(handle).received[k]].scope,
        ),
{
    assert(channel.holds(channel.slots[handle].unwrap()));
}

/// A new subscription starts where the log ends, and neither a publication
/// nor a read of any subscription ever moves the start of a subscription.
pub proof fn lemma_start_is_fixed<V>(
    channel: Channel<V>,
    handle: int,
    scope: ChannelScope,
    payload: V,
    reader: int,
)
    requires
        channel.inv(),
    ensures
        !channel.is_attached(handle) && 0 <= handle <= channel.slots.len() ==> channel.attach(
            handle,
            scope,
        ).is_attached(handle) && channel.attach(handle, scope).subscription(handle).start
            == channel.log.len(),
        channel.is_attached(handle) ==> channel.publish(scope, payload).is_attached(handle)
            && channel.publish(scope, payload).subscription(handle).start == channel.subscription(
            handle,
        ).start,
        channel.is_attached(handle) ==> channel.after_read(reader).is_attached(handle)
            && channel.after_read(reader).subscription(handle).start == channel.subscription(
            handle,
        ).start,
{
}

/// A message that was posted is on record, whoever listens: it is the last
/// entry of the history of its room. Where nobody observes the global scope,
/// or the channel has been shut down, the live channel is as it was.
pub proof fn lemma_sent_is_on_record(state: ChatState, request: NewMessageView, timestamp: int)
    requires
        state.inv(),
        state.rooms.has_room(request.room_id),
        !state.archive.is_full(),
    ensures
        state.send_reply(request, timestamp) is Ok,
        state.after_send(request, timestamp).archive.history(request.room_id)
            == state.archive.history(request.room_id).push(
            state.send_reply(request, timestamp).unwrap(),
        ),
        state.channel.closed || state.channel.audience(ChannelScope::Global) == 0
            ==> state.after_send(request, timestamp).channel == state.channel,
{
    let message = state.archive.stamped(
        request.sender,
        request.message,
        request.room_id,
        timestamp,
    );
    state.archive.lemma_appended(message);
}

/// One thing that can happen to the engine.
pub enum Request {
    /// A message is posted.
    Send { request: NewMessageView, timestamp: int },
    /// A room is created.
    PostRoom { participants: Seq<Seq<char>> },
    /// Somebody joins a room.
    PutRoom { id: int, name: Seq<char> },
    /// A room is deleted, its messages first.
    DeleteRoom { id: int },
    /// Something happens on the live channel that is no publication.
    Live { step: Step<MessageView> },
}

/// The engine after one request. What the engine would refuse does not
/// happen; on the live channel nothing is published but what was posted.
pub open spec fn after_request(state: ChatState, request: Request) -> ChatState {
    match request {
        Request::Send { request, timestamp } => state.after_send(request, timestamp),
        Request::PostRoom { participants } => if state.rooms.is_full() {
            state
        } else {
            ChatState { rooms: state.rooms.created(participants), ..state }
        },
        Request::PutRoom { id, name } => if state.rooms.has_room(id) {
            ChatState { rooms: state.rooms.with_participant(id, name), ..state }
        } else {
            state
        },
        Request::DeleteRoom { id } => state.after_delete_room(id),
        Request::Live { step } => if step is Publish {
            state
        } else {
            ChatState { channel: after_step(state.channel, step), ..state }
        },
    }
}

/// The engine after a series of requests, taken one after the other.
pub open spec fn after_requests(state: ChatState, requests: Seq<Request>) -> ChatState
    decreases requests.len(),
{
    if requests.len() == 0 {
        state
    } else {
        after_request(after_requests(state, requests.drop_last()), requests.last())
    }
}

/// One request keeps the engine consistent.
pub proof fn lemma_request_keeps_consistent(state: ChatState, request: Request)
    requires
        state.inv(),
    ensures
        after_request(state, request).inv(),
{
    let after = after_request(state, request);
    match request {
        Request::Send { request, timestamp } => {
            state.lemma_after_send(request, timestamp);
        },
        Request::PostRoom { participants } => {
            if !state.rooms.is_full() {
                state.rooms.lemma_created(participants);
                state.lemma_rooted_kept(after, Seq::empty());
            }
        },
        Request::PutRoom { id, name } => {
            state.rooms.lemma_with_participant(id, name);
            if state.rooms.has_room(id) {
                state.lemma_rooted_kept(after, Seq::empty());
            }
        },
        Request::DeleteRoom { id } => {
            state.lemma_after_delete_room(id);
        },
        Request::Live { step } => {
            match step {
                Step::Publish { scope, payload } => {},
                Step::Subscribe { handle, scope } => {
                    if 0 <= handle <= state.channel.slots.len() {
                        state.channel.lemma_attach_keeps_inv(handle, scope);
                    }
                },
                Step::Read { handle } => {
                    state.channel.lemma_read_keeps_inv(handle);
                },
                Step::Unsubscribe { handle } => {
                    state.channel.lemma_detach_keeps_inv(handle);
                },
                Step::Close => {
                    state.channel.lemma_close_keeps_inv();
                },
            }
            state.lemma_recorded_first_kept(after, Seq::empty());
        },
    }
}

/// Whatever is asked of the engine, in whatever order, it stays consistent:
/// in every state that it can reach, every message on record belongs to a
/// room that exists, and whatever went out live had been put on record
/// before.
pub proof fn lemma_every_reachable_engine_is_consistent(state: ChatState, requests: Seq<Request>)
    requires
        state.inv(),
    ensures
        after_requests(state, requests).inv(),
        after_requests(state, requests).rooted(),
        after_requests(state, requests).recorded_first(),
    decreases requests.len(),
{
    if requests.len() > 0 {
        lemma_every_reachable_engine_is_consistent(state, requests.drop_last());
        lemma_request_keeps_consistent(
            after_requests(state, requests.drop_last()),
            requests.last(),
        );
    }
}

/// What a post is answered with, and what it does to the rooms and to the
/// record, does not depend on the live channel: however many subscribers
/// there are, however far behind they have fallen, and whether the channel
/// is shut down or not, the answer and the record are the same. No
/// subscriber can hold a post up or make it fail.
pub proof fn lemma_send_does_not_depend_on_subscribers(
    state: ChatState,
    channel: Channel<MessageView>,
    request: NewMessageView,
    timestamp: int,
)
    ensures
        (ChatState { channel, ..state }).send_reply(request, timestamp) == state.send_reply(
            request,
            timestamp,
        ),
        (ChatState { channel, ..state }).after_send(request, timestamp).archive
            == state.after_send(request, timestamp).archive,
        (ChatState { channel, ..state }).after_send(request, timestamp).rooms == state.after_send(
            request,
            timestamp,
        ).rooms,
{
}

/// A post to a room that exists succeeds as long as the record has an id to
/// give, whatever the live channel holds: also with nobody subscribed, after
/// a shutdown, and with a subscriber whose backlog is full. The message is
/// then the last of the history of its room, and the sender takes part in
/// the room.
pub proof fn lemma_send_succeeds(state: ChatState, request: NewMessageView, timestamp: int)
    requires
        state.inv(),
        state.rooms.has_room(request.room_id),
        !state.archive.is_full(),
    ensures
        state.send_reply(request, timestamp) == Ok::<MessageView, ChatError>(
            state.archive.stamped(request.sender, request.message, request.room_id, timestamp),
        ),
        state.after_send(request, timestamp).archive.history(request.room_id)
            == state.archive.history(request.room_id).push(
            state.send_reply(request, timestamp).unwrap(),
        ),
        state.after_send(request, timestamp).rooms.room(request.room_id).participants.contains(
            request.sender,
        ),
{
    let message = state.archive.stamped(
        request.sender,
        request.message,
        request.room_id,
        timestamp,
    );
    state.archive.lemma_appended(message);
    state.rooms.lemma_with_participant(request.room_id, request.sender);
    lemma_joined(state.rooms.room(request.room_id).participants, request.sender);
}

/// Whether a request deletes the room `room`.
pub open spec fn deletes(request: Request, room: int) -> bool {
    match request {
        Request::DeleteRoom { id } => id == room,
        _ => false,
    }
}

/// Whether none of the requests deletes the room `room`.
pub open spec fn keeps_room(requests: Seq<Request>, room: int) -> bool {
    forall|k: int| 0 <= k < requests.len() ==> !deletes(#[trigger] requests[k], room)
}

/// The message that a request puts into the history of `room` when the
/// engine stands at `state`: the answer to a post to that room which
/// succeeds, and nothing for every other request.
pub open spec fn posted(state: ChatState, request: Request, room: int) -> Option<MessageView> {
    match request {
        Request::Send { request, timestamp } => if request.room_id == room && state.send_reply(
            request,
            timestamp,
        ) is Ok {
            Some(state.send_reply(request, timestamp).unwrap())
        } else {
            None
        },
        _ => None,
    }
}

/// The messages that the posts to `room` among a series of requests are
/// answered with, in the order of the posts, whatever else happens between
/// them.
pub open spec fn posted_to(state: ChatState, requests: Seq<Request>, room: int) -> Seq<
    MessageView,
>
    decreases requests.len(),
{
    if requests.len() == 0 {
        Seq::empty()
    } else {
        let earlier = posted_to(state, requests.drop_last(), room);
        match posted(after_requests(state, requests.drop_last()), requests.last(), room) {
            Some(message) => earlier.push(message),
            None => earlier,
        }
    }
}

/// Removing the messages of one room leaves the history of every other room
/// as it is.
pub proof fn lemma_other_histories_stay(archive: Archive, gone: int, room: int)
    requires
        gone != room,
    ensures
        archive.without_room(gone).history(room) == archive.history(room),
    decreases archive.log.len(),
{
    reveal(Seq::filter);
    let log = archive.log;
    if log.len() > 0 {
        let front = Archive { log: log.drop_last(), ..archive };
        lemma_other_histories_stay(front, gone, room);
        let last = log.last();
        assert(log =~= front.log.push(last));
        front.log.lemma_filter_push(last, crate::store::outside_room(gone));
        front.log.lemma_filter_push(last, in_room(room));
        front.log.filter(crate::store::outside_room(gone)).lemma_filter_push(last, in_room(room));
    }
}

/// One request changes the history of a room that it does not delete by
/// what it posts to the room, and by nothing else.
pub proof fn lemma_request_and_history(state: ChatState, request: Request, room: int)
    requires
        state.inv(),
        !deletes(request, room),
    ensures
        after_request(state, request).archive.history(room) == (match posted(
            state,
            request,
            room,
        ) {
            Some(message) => state.archive.history(room).push(message),
            None => state.archive.history(room),
        }),
{
    match request {
        Request::Send { request, timestamp } => {
            if state.rooms.has_room(request.room_id) && !state.archive.is_full() {
                let message = state.archive.stamped(
                    request.sender,
                    request.message,
                    request.room_id,
                    timestamp,
                );
                state.archive.lemma_appended(message);
            }
        },
        Request::DeleteRoom { id } => {
            if state.rooms.has_room(id) {
                lemma_other_histories_stay(state.archive, id, room);
            }
        },
        _ => {},
    }
}

/// However posts to a room are interleaved with each other and with
/// everything else that the engine does, as long as the room is not
/// deleted: the history of the room is what it was, followed by exactly the
/// messages that the posts to it were answered with, each once, in the order
/// in which the posts were taken. Nothing is lost, nothing is listed twice,
/// and the ids rise.
pub proof fn lemma_history_is_what_was_posted(state: ChatState, requests: Seq<Request>, room: int)
    requires
        state.inv(),
        keeps_room(requests, room),
    ensures
        after_requests(state, requests).archive.history(room) == state.archive.history(room)
            + posted_to(state, requests, room),
        after_requests(state, requests).archive.history(room).len() == state.archive.history(
            room,
        ).len() + posted_to(state, requests, room).len(),
        ascending(after_requests(state, requests).archive.history(room)),
    decreases requests.len(),
{
    let before_history = state.archive.history(room);
    if requests.len() > 0 {
        let front = requests.drop_last();
        assert forall|k: int| 0 <= k < front.len() implies !deletes(#[trigger] front[k], room) by {
            assert(front[k] == requests[k]);
        }
        assert(requests[requests.len() - 1] == requests.last());
        lemma_history_is_what_was_posted(state, front, room);
        lemma_every_reachable_engine_is_consistent(state, front);
        let middle = after_requests(state, front);
        lemma_request_and_history(middle, requests.last(), room);
        let earlier = posted_to(state, front, room);
        match posted(middle, requests.last(), room) {
            Some(message) => {
                assert((before_history + earlier).push(message) =~= before_history + earlier.push(
                    message,
                ));
            },
            None => {},
        }
    } else {
        assert(before_history =~= before_history + posted_to(state, requests, room));
    }
    lemma_every_reachable_engine_is_consistent(state, requests);
    lemma_selection(after_requests(state, requests).archive.log, in_room(room));
}

/// Every message that a post to a room was answered with is in the history
/// of the room afterwards, whatever else was asked of the engine before and
/// after, as long as the room is not deleted.
pub proof fn lemma_posted_is_listed(state: ChatState, requests: Seq<Request>, room: int, k: int)
    requires
        state.inv(),
        keeps_room(requests, room),
        0 <= k < requests.len(),
        posted(after_requests(state, requests.take(k)), requests[k], room) is Some,
    ensures
        after_requests(state, requests).archive.history(room).contains(
            posted(after_requests(state, requests.take(k)), requests[k], room).unwrap(),
        ),
    decreases requests.len(),
{
    let message = posted(after_requests(state, requests.take(k)), requests[k], room).unwrap();
    let front = requests.drop_last();
    lemma_history_is_what_was_posted(state, requests, room);
    let history = after_requests(state, requests).archive.history(room);
    let all = posted_to(state, requests, room);
    let old_len = state.archive.history(room).len() as int;
    if k == requests.len() - 1 {
        assert(requests.take(k) =~= front);
        assert(all.last() == message);
        assert(history[old_len + all.len() - 1] == message);
    } else {
        assert forall|j: int| 0 <= j < front.len() implies !deletes(#[trigger] front[j], room) by {
            assert(front[j] == requests[j]);
        }
        assert(front.take(k) =~= requests.take(k));
        assert(front[k] == requests[k]);
        lemma_posted_is_listed(state, front, room, k);
        lemma_history_is_what_was_posted(state, front, room);
        let earlier_history = after_requests(state, front).archive.history(room);
        let at = choose|at: int| 0 <= at < earlier_history.len() && earlier_history[at] == message;
        let earlier = posted_to(state, front, room);
        assert(earlier_history == state.archive.history(room) + earlier);
        if at < old_len {
            assert(history[at] == message);
        } else {
            assert(earlier[at - old_len] == message);
            assert(all[at - old_len] == message);
            assert(history[at] == message);
        }
    }
}

/// Whatever went out live had been put on record before: every publication
/// of the live channel carries an id that the record has given out.
pub proof fn lemma_live_was_recorded(state: ChatState, k: int)
    requires
        state.inv(),
        0 <= k < state.channel.log.len(),
    ensures
        state.archive.has_assigned(state.channel.log[k].payload.id),
{
}

/// Joining a room again changes nothing, and whoever joined is listed in the
/// room exactly once.
pub proof fn lemma_repeated_join(registry: Registry, id: int, name: Seq<char>)
    requires
        registry.inv(),
        registry.has_room(id),
    ensures
        registry.with_participant(id, name).with_participant(id, name)
            == registry.with_participant(id, name),
        registry.with_participant(id, name).room(id).participants.no_duplicates(),
        registry.with_participant(id, name).room(id).participants.contains(name),
        exists|at: int|
            0 <= at < registry.with_participant(id, name).room(id).participants.len()
                && #[trigger] registry.with_participant(id, name).room(id).participants[at] == name
                && forall|other: int|
                0 <= other < registry.with_participant(id, name).room(id).participants.len()
                    && registry.with_participant(id, name).room(id).participants[other] == name
                    ==> other == at,
{
    let once = registry.with_participant(id, name);
    let twice = once.with_participant(id, name);
    registry.lemma_with_participant(id, name);
    assert forall|i: int| 0 <= i < once.rooms.len() implies twice.rooms[i] == once.rooms[i] by {
        if registry.rooms[i].id == id {
            crate::room::lemma_joined_idempotent(registry.rooms[i].participants, name);
        }
    }
    assert(twice.rooms =~= once.rooms);
    let at_room = registry.index_of(id);
    registry.lemma_index(at_room);
    lemma_joined(registry.room(id).participants, name);
    let list = once.room(id).participants;
    assert(list == joined(registry.room(id).participants, name));
    let at = choose|at: int| 0 <= at < list.len() && list[at] == name;
    assert(list[at] == name);
}

/// Two joins of one room are both kept, whichever comes first: afterwards
/// both identities are listed.
pub proof fn lemma_joins_are_both_kept(
    registry: Registry,
    id: int,
    first: Seq<char>,
    second: Seq<char>,
)
    requires
        registry.inv(),
        registry.has_room(id),
    ensures
        registry.with_participant(id, first).with_participant(id, second).has_room(id),
        registry.with_participant(id, first).with_participant(id, second).room(
            id,
        ).participants.contains(first),
        registry.with_participant(id, first).with_participant(id, second).room(
            id,
        ).participants.contains(second),
{
    let once = registry.with_participant(id, first);
    registry.lemma_with_participant(id, first);
    once.lemma_with_participant(id, second);
    lemma_joined(registry.room(id).participants, first);
    lemma_joined(once.room(id).participants, second);
}

/// After a room was deleted it is gone: a lookup of it is answered with
/// `NotFound`, and it has no history. Every other room is still there.
pub proof fn lemma_deleted_room_is_gone(state: ChatState, id: int)
    requires
        state.inv(),
        state.rooms.has_room(id),
    ensures
        state.after_delete_room(id).inv(),
        !state.after_delete_room(id).rooms.has_room(id),
        state.after_delete_room(id).room_shown(id) == Err::<Seq<NewRoomView>, ChatError>(
            ChatError::NotFound,
        ),
        state.after_delete_room(id).archive.history(id) == Seq::<MessageView>::empty(),
        forall|other: int|
            other != id ==> (state.after_delete_room(id).rooms.has_room(other)
                <==> state.rooms.has_room(other)),
{
    state.lemma_after_delete_room(id);
    state.rooms.lemma_without(id);
    state.archive.lemma_without_room(id);
}

/// A subscription whose backlog stays within the capacity of the channel
/// loses nothing to a publication: only where the channel is full and the
/// subscription has not read the oldest publication held can it lose one.
pub proof fn lemma_within_capacity_nothing_is_lost<V>(
    channel: Channel<V>,
    handle: int,
    scope: ChannelScope,
    payload: V,
)
    requires
        channel.inv(),
        channel.is_attached(handle),
        channel.retained < channel.capacity || channel.subscription(handle).position
            > channel.base(),
    ensures
        channel.publish(scope, payload).is_attached(handle),
        channel.publish(scope, payload).subscription(handle) == channel.subscription(handle),
{
    assert(channel.holds(channel.slots[handle].unwrap()));
}

/// A publication that a full channel takes does not make it hold more: what
/// it holds never exceeds its capacity.
pub proof fn lemma_never_more_than_capacity<V>(channel: Channel<V>, scope: ChannelScope, payload: V)
    requires
        channel.inv(),
    ensures
        channel.publish(scope, payload).retained <= channel.capacity,
        channel.publish(scope, payload).capacity == channel.capacity,
{
}

/// What a connection still has to forward: the places in the log of the
/// observed publications that its subscription has not examined yet, in the
/// order of publication.
pub open spec fn backlog<V>(session: Session, channel: Channel<V>) -> Seq<int> {
    observed_between(
        channel.log,
        channel.subscription(session.reads_through()).scope,
        channel.subscription(session.reads_through()).position,
        channel.log.len() as int,
    )
}

/// Whether a connection is forwarding, with a subscription on `channel` that
/// has no lag to report.
pub open spec fn forwards<V>(session: Session, channel: Channel<V>) -> bool {
    &&& channel.inv()
    &&& session.is_live()
    &&& session.handle is Some
    &&& channel.is_attached(session.reads_through())
    &&& channel.subscription(session.reads_through()).missed == 0
}

/// The connection and the channel after `writes` outbound writes have been
/// reported as done, one after the other, with nothing else happening in
/// between.
pub open spec fn after_writes<V>(session: Session, channel: Channel<V>, writes: nat) -> (
    Session,
    Channel<V>,
)
    decreases writes,
{
    if writes == 0 {
        (session, channel)
    } else {
        let (s, c) = after_writes(session, channel, (writes - 1) as nat);
        (s.after(c, Event::Written), s.channel_after(c, Event::Written))
    }
}

/// What a forwarding connection is told when its last write is done: to
/// write the first publication of its backlog, unchanged; with an empty
/// backlog to close after a shutdown and to wait otherwise. When it writes,
/// it goes on forwarding with the rest of its backlog.
pub proof fn lemma_forwards_the_next<V>(session: Session, channel: Channel<V>)
    requires
        forwards(session, channel),
    ensures
        backlog(session, channel).len() > 0 ==> {
            let next = session.after(channel, Event::Written);
            let read = session.channel_after(channel, Event::Written);
            &&& 0 <= backlog(session, channel)[0] < channel.log.len()
            &&& session.act(channel, Event::Written) == Act::Write(
                channel.log[backlog(session, channel)[0]].payload,
            )
            &&& forwards(next, read)
            &&& next.handle == session.handle
            &&& next.writing
            &&& read.log == channel.log
            &&& read.closed == channel.closed
            &&& backlog(next, read) == backlog(session, channel).skip(1)
        },
        backlog(session, channel).len() == 0 ==> session.act(channel, Event::Written) == (
        if channel.closed {
            Act::<V>::Close
        } else {
            Act::<V>::Wait
        }),
        backlog(session, channel).len() == 0 && channel.closed ==> session.after(
            channel,
            Event::Written,
        ).phase == Phase::ServerShutdown && !session.channel_after(
            channel,
            Event::Written,
        ).is_attached(session.reads_through()),
{
    let handle = session.reads_through();
    let sub = channel.subscription(handle);
    assert(channel.holds(channel.slots[handle].unwrap()));
    lemma_observed_between_front(channel.log, sub.scope, sub.position);
    channel.lemma_read_keeps_inv(handle);
    match crate::channel::first_observed(channel.log, sub.scope, sub.position) {
        Some(index) => {
            let rest = observed_between(channel.log, sub.scope, index + 1, channel.log.len() as int);
            assert((seq![index] + rest)[0] == index);
            assert((seq![index] + rest).skip(1) =~= rest);
        },
        None => {},
    }
}

/// A connection that forwards with nothing else happening hands out the
/// publications of its backlog one write at a time, each exactly once, in
/// the order of publication and unchanged; when the backlog is used up it
/// is told to close after a shutdown and to wait otherwise.
pub proof fn lemma_forwards_the_backlog_in_order<V>(
    session: Session,
    channel: Channel<V>,
    writes: nat,
)
    requires
        forwards(session, channel),
        writes <= backlog(session, channel).len(),
    ensures
        forwards(after_writes(session, channel, writes).0, after_writes(session, channel, writes).1),
        after_writes(session, channel, writes).1.log == channel.log,
        after_writes(session, channel, writes).1.closed == channel.closed,
        backlog(after_writes(session, channel, writes).0, after_writes(session, channel, writes).1)
            == backlog(session, channel).skip(writes as int),
        writes < backlog(session, channel).len() ==> after_writes(session, channel, writes).0.act(
            after_writes(session, channel, writes).1,
            Event::Written,
        ) == Act::Write(channel.log[backlog(session, channel)[writes as int]].payload),
        writes == backlog(session, channel).len() ==> after_writes(session, channel, writes).0.act(
            after_writes(session, channel, writes).1,
            Event::Written,
        ) == (if channel.closed {
            Act::<V>::Close
        } else {
            Act::<V>::Wait
        }),
    decreases writes,
{
    let whole = backlog(session, channel);
    if writes == 0 {
        assert(whole.skip(0) =~= whole);
        lemma_forwards_the_next(session, channel);
    } else {
        let fewer = (writes - 1) as nat;
        lemma_forwards_the_backlog_in_order(session, channel, fewer);
        let (s, c) = after_writes(session, channel, fewer);
        lemma_forwards_the_next(s, c);
        let (next, read) = after_writes(session, channel, writes);
        assert(whole.skip(fewer as int).skip(1) =~= whole.skip(writes as int));
        lemma_forwards_the_next(next, read);
        if writes < whole.len() {
            assert(whole.skip(writes as int)[0] == whole[writes as int]);
        }
    }
}

/// A connection that is over stays over: its next event terminates it, it
/// hands out nothing to write, and it leaves the channel alone.
pub proof fn lemma_over_stays_over<V>(session: Session, channel: Channel<V>, event: Event)
    requires
        session.is_over(),
    ensures
        !session.subscribes_on(event),
        session.after(channel, event).phase == Phase::Terminated,
        session.act(channel, event) is Done,
        session.channel_after(channel, event) == channel,
{
}

/// A lag does not end a connection: it is handed out as a notice, and the
/// connection goes on forwarding with the subscription that it holds.
pub proof fn lemma_lag_is_not_fatal<V>(session: Session, channel: Channel<V>, event: Event)
    requires
        session.is_live(),
        session.polls_on(event),
        channel.reading(session.reads_through()) is Lagged,
    ensures
        session.after(channel, event).phase == Phase::Forwarding,
        session.after(channel, event).handle == session.handle,
        session.act(channel, event) is Notify,
{
}

/// While a write is under way a connection hands out no second one: a
/// wake-up and an idle interval are answered with a wait, and nothing is
/// read.
pub proof fn lemma_one_write_in_flight<V>(session: Session, channel: Channel<V>, event: Event)
    requires
        session.is_live(),
        session.writing,
        event == Event::Wake || event == Event::Idle,
    ensures
        session.act(channel, event) is Wait,
        session.after(channel, event) == session,
        session.channel_after(channel, event) == channel,
{
}

/// A connection whose peer goes away, or whose write fails, lets its
/// subscription go at once and is told to close.
pub proof fn lemma_ending_releases<V>(session: Session, channel: Channel<V>, event: Event)
    requires
        session.is_live(),
        session.handle is Some,
        channel.is_attached(session.reads_through()),
        event == Event::PeerClosed || event == Event::WriteFailed,
    ensures
        !session.channel_after(channel, event).is_attached(session.reads_through()),
        session.after(channel, event).handle is None,
        session.after(channel, event).is_over(),
        session.act(channel, event) is Close,
{
}

} // verus!
