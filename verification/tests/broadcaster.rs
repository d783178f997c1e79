use chat_fanout::broadcaster::{Broadcaster, Delivery};
use chat_fanout::error::ChatError;
use chat_fanout::message::Message;
use chat_fanout::scope::ChannelScope;

fn msg(id: i32, room_id: i32, text: &str) -> Message {
    Message {
        id,
        timestamp: 1_700_000_000_000_000 + id as i64,
        sender: "alice".to_string(),
        message: text.to_string(),
        room_id,
    }
}

#[test]
fn publish_without_subscribers_is_dropped_and_is_no_error() {
    let mut b: Broadcaster<Message> = Broadcaster::new(10);
    assert_eq!(b.publish(ChannelScope::Global, msg(1, 1, "hi")), Ok(0));
    let late = b.subscribe(ChannelScope::Global);
    assert_eq!(b.next(&late), Delivery::Pending);
}

#[test]
fn every_subscriber_receives_each_message_once_in_order() {
    let mut b: Broadcaster<Message> = Broadcaster::new(10);
    let first = b.subscribe(ChannelScope::Global);
    let second = b.subscribe(ChannelScope::Global);
    assert_eq!(b.publish(ChannelScope::Global, msg(1, 1, "one")), Ok(2));
    assert_eq!(b.publish(ChannelScope::Global, msg(2, 2, "two")), Ok(2));
    assert_eq!(b.publish(ChannelScope::Global, msg(3, 1, "three")), Ok(2));
    for handle in [&first, &second] {
        assert_eq!(b.next(handle), Delivery::Message(msg(1, 1, "one")));
        assert_eq!(b.next(handle), Delivery::Message(msg(2, 2, "two")));
        assert_eq!(b.next(handle), Delivery::Message(msg(3, 1, "three")));
        assert_eq!(b.next(handle), Delivery::Pending);
    }
}

#[test]
fn subscription_never_sees_what_was_published_before_it() {
    let mut b: Broadcaster<Message> = Broadcaster::new(10);
    let early = b.subscribe(ChannelScope::Global);
    assert_eq!(b.publish(ChannelScope::Global, msg(1, 1, "before")), Ok(1));
    let late = b.subscribe(ChannelScope::Global);
    assert_eq!(b.publish(ChannelScope::Global, msg(2, 1, "after")), Ok(2));
    assert_eq!(b.next(&late), Delivery::Message(msg(2, 1, "after")));
    assert_eq!(b.next(&late), Delivery::Pending);
    assert_eq!(b.next(&early), Delivery::Message(msg(1, 1, "before")));
    assert_eq!(b.next(&early), Delivery::Message(msg(2, 1, "after")));
}

#[test]
fn stalled_subscriber_lags_by_one_after_eleven_publishes_at_capacity_ten() {
    let mut b: Broadcaster<Message> = Broadcaster::new(10);
    let stalled = b.subscribe(ChannelScope::Global);
    for id in 1..=11 {
        assert_eq!(b.publish(ChannelScope::Global, msg(id, 1, "m")), Ok(1));
    }
    assert_eq!(b.next(&stalled), Delivery::Lagged(1));
    for id in 2..=11 {
        assert_eq!(b.next(&stalled), Delivery::Message(msg(id, 1, "m")));
    }
    assert_eq!(b.next(&stalled), Delivery::Pending);
}

#[test]
fn full_channel_holds_exactly_its_capacity_without_lag() {
    let mut b: Broadcaster<Message> = Broadcaster::new(10);
    let stalled = b.subscribe(ChannelScope::Global);
    for id in 1..=10 {
        assert_eq!(b.publish(ChannelScope::Global, msg(id, 1, "m")), Ok(1));
    }
    for id in 1..=10 {
        assert_eq!(b.next(&stalled), Delivery::Message(msg(id, 1, "m")));
    }
    assert_eq!(b.next(&stalled), Delivery::Pending);
}

#[test]
fn lag_of_one_subscriber_leaves_the_others_alone() {
    let mut b: Broadcaster<Message> = Broadcaster::new(2);
    let slow = b.subscribe(ChannelScope::Global);
    let fast = b.subscribe(ChannelScope::Global);
    for id in 1..=5 {
        assert_eq!(b.publish(ChannelScope::Global, msg(id, 1, "m")), Ok(2));
        assert_eq!(b.next(&fast), Delivery::Message(msg(id, 1, "m")));
    }
    assert_eq!(b.next(&fast), Delivery::Pending);
    assert_eq!(b.next(&slow), Delivery::Lagged(3));
    assert_eq!(b.next(&slow), Delivery::Message(msg(4, 1, "m")));
    assert_eq!(b.next(&slow), Delivery::Message(msg(5, 1, "m")));
    assert_eq!(b.next(&slow), Delivery::Pending);
}

#[test]
fn room_scope_filters_and_counts_only_what_it_observes() {
    let mut b: Broadcaster<Message> = Broadcaster::new(2);
    let room7 = b.subscribe(ChannelScope::Room(7));
    let all = b.subscribe(ChannelScope::Global);
    assert_eq!(b.publish(ChannelScope::Room(7), msg(1, 7, "a")), Ok(2));
    assert_eq!(b.publish(ChannelScope::Room(8), msg(2, 8, "b")), Ok(1));
    assert_eq!(b.publish(ChannelScope::Global, msg(3, 9, "c")), Ok(1));
    assert_eq!(b.publish(ChannelScope::Room(7), msg(4, 7, "d")), Ok(2));
    // Capacity two: messages 1 and 2 were dropped. Room 7 observed only the first.
    assert_eq!(b.next(&room7), Delivery::Lagged(1));
    assert_eq!(b.next(&room7), Delivery::Message(msg(4, 7, "d")));
    assert_eq!(b.next(&room7), Delivery::Pending);
    assert_eq!(b.next(&all), Delivery::Lagged(2));
    assert_eq!(b.next(&all), Delivery::Message(msg(3, 9, "c")));
    assert_eq!(b.next(&all), Delivery::Message(msg(4, 7, "d")));
}

#[test]
fn shutdown_refuses_publishers_and_closes_subscriptions_after_the_backlog() {
    let mut b: Broadcaster<Message> = Broadcaster::new(4);
    let h = b.subscribe(ChannelScope::Global);
    assert_eq!(b.publish(ChannelScope::Global, msg(1, 1, "last")), Ok(1));
    b.shutdown();
    assert!(b.is_closed());
    assert_eq!(b.publish(ChannelScope::Global, msg(2, 1, "late")), Err(ChatError::ChannelClosed));
    assert_eq!(b.next(&h), Delivery::Message(msg(1, 1, "last")));
    assert_eq!(b.next(&h), Delivery::Closed);
    assert_eq!(b.next(&h), Delivery::Closed);
}

#[test]
fn unsubscribe_releases_the_handle_for_reuse() {
    let mut b: Broadcaster<Message> = Broadcaster::new(4);
    let a = b.subscribe(ChannelScope::Global);
    let c = b.subscribe(ChannelScope::Global);
    assert_eq!(b.audience(ChannelScope::Global), 2);
    b.unsubscribe(a);
    assert_eq!(b.audience(ChannelScope::Global), 1);
    assert_eq!(b.publish(ChannelScope::Global, msg(1, 1, "x")), Ok(1));
    let again = b.subscribe(ChannelScope::Global);
    assert!(b.is_subscribed(&again));
    assert_eq!(b.next(&again), Delivery::Pending);
    assert_eq!(b.next(&c), Delivery::Message(msg(1, 1, "x")));
    assert_eq!(b.capacity(), 4);
}

#[test]
fn broadcaster_never_holds_more_than_its_capacity() {
    let mut b: Broadcaster<Message> = Broadcaster::new(3);
    let _h = b.subscribe(ChannelScope::Global);
    assert_eq!(b.held(), 0);
    for id in 1..=20 {
        b.publish(ChannelScope::Global, msg(id, 1, "m")).unwrap();
        assert_eq!(b.held(), std::cmp::min(id as usize, 3));
    }
}
