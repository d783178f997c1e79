use chat_fanout::broadcaster::Broadcaster;
use chat_fanout::message::Message;
use chat_fanout::relay::{handle_socket, recv_broadcast, recv_from_client, Frame, Inbound};
use chat_fanout::scope::ChannelScope;
use chat_fanout::subscription::{Action, Event, Phase, SubscriptionManager};

fn msg(id: i32) -> Message {
    Message {
        id,
        timestamp: id as i64,
        sender: "alice".to_string(),
        message: format!("m{id}"),
        room_id: 1,
    }
}

#[test]
fn connection_subscribes_then_forwards_one_write_at_a_time() {
    let mut queue: Broadcaster<Message> = Broadcaster::new(10);
    let mut manager = SubscriptionManager::new(ChannelScope::Global);
    assert_eq!(manager.phase(), Phase::Connecting);
    assert_eq!(manager.step(&mut queue, Event::Wake), Action::Wait);
    assert_eq!(manager.phase(), Phase::Subscribed);
    assert_eq!(queue.audience(ChannelScope::Global), 1);

    assert_eq!(manager.step(&mut queue, Event::Wake), Action::Wait);
    assert_eq!(manager.phase(), Phase::Forwarding);

    queue.publish(ChannelScope::Global, msg(1)).unwrap();
    queue.publish(ChannelScope::Global, msg(2)).unwrap();
    assert_eq!(manager.step(&mut queue, Event::Wake), Action::Write(msg(1)));
    // The first write is still under way: nothing more is handed out.
    assert_eq!(manager.step(&mut queue, Event::Wake), Action::Wait);
    assert_eq!(manager.step(&mut queue, Event::Idle), Action::Wait);
    assert_eq!(manager.step(&mut queue, Event::Written), Action::Write(msg(2)));
    assert_eq!(manager.step(&mut queue, Event::Written), Action::Wait);
    assert_eq!(manager.phase(), Phase::Forwarding);
}

#[test]
fn idle_connection_is_kept_alive() {
    let mut queue: Broadcaster<Message> = Broadcaster::new(10);
    let mut manager = SubscriptionManager::new(ChannelScope::Global);
    manager.step(&mut queue, Event::Wake);
    assert_eq!(manager.step(&mut queue, Event::Idle), Action::KeepAlive);
    assert_eq!(manager.step(&mut queue, Event::Idle), Action::Wait);
    assert_eq!(manager.step(&mut queue, Event::Written), Action::Wait);
    assert_eq!(manager.step(&mut queue, Event::Idle), Action::KeepAlive);
}

#[test]
fn lag_is_reported_and_forwarding_goes_on() {
    let mut queue: Broadcaster<Message> = Broadcaster::new(2);
    let mut manager = SubscriptionManager::new(ChannelScope::Global);
    manager.step(&mut queue, Event::Wake);
    for id in 1..=5 {
        queue.publish(ChannelScope::Global, msg(id)).unwrap();
    }
    assert_eq!(manager.step(&mut queue, Event::Wake), Action::Notify(3));
    assert_eq!(manager.phase(), Phase::Forwarding);
    assert_eq!(manager.step(&mut queue, Event::Written), Action::Write(msg(4)));
    assert_eq!(manager.step(&mut queue, Event::Written), Action::Write(msg(5)));
    assert_eq!(manager.step(&mut queue, Event::Written), Action::Wait);
}

#[test]
fn peer_close_releases_the_subscription_and_terminates() {
    let mut queue: Broadcaster<Message> = Broadcaster::new(10);
    let mut manager = SubscriptionManager::new(ChannelScope::Global);
    manager.step(&mut queue, Event::Wake);
    assert_eq!(queue.audience(ChannelScope::Global), 1);
    assert_eq!(manager.step(&mut queue, Event::PeerClosed), Action::Close);
    assert_eq!(manager.phase(), Phase::ClientClosed);
    assert_eq!(queue.audience(ChannelScope::Global), 0);
    assert_eq!(manager.step(&mut queue, Event::Wake), Action::Done);
    assert_eq!(manager.phase(), Phase::Terminated);
    assert!(manager.is_terminated());
    queue.publish(ChannelScope::Global, msg(1)).unwrap();
    for event in [Event::Wake, Event::Written, Event::Idle, Event::PeerClosed, Event::WriteFailed] {
        assert_eq!(manager.step(&mut queue, event), Action::Done);
        assert_eq!(manager.phase(), Phase::Terminated);
    }
}

#[test]
fn write_failure_ends_the_connection() {
    let mut queue: Broadcaster<Message> = Broadcaster::new(10);
    let mut manager = SubscriptionManager::new(ChannelScope::Global);
    manager.step(&mut queue, Event::Wake);
    queue.publish(ChannelScope::Global, msg(1)).unwrap();
    assert_eq!(manager.step(&mut queue, Event::Wake), Action::Write(msg(1)));
    assert_eq!(manager.step(&mut queue, Event::WriteFailed), Action::Close);
    assert_eq!(manager.phase(), Phase::TransportError);
    assert_eq!(queue.audience(ChannelScope::Global), 0);
    assert_eq!(manager.step(&mut queue, Event::Written), Action::Done);
    assert_eq!(manager.phase(), Phase::Terminated);
}

#[test]
fn shutdown_ends_the_connection_after_the_backlog() {
    let mut queue: Broadcaster<Message> = Broadcaster::new(10);
    let mut manager = SubscriptionManager::new(ChannelScope::Global);
    manager.step(&mut queue, Event::Wake);
    queue.publish(ChannelScope::Global, msg(1)).unwrap();
    queue.shutdown();
    assert_eq!(manager.step(&mut queue, Event::Wake), Action::Write(msg(1)));
    assert_eq!(manager.step(&mut queue, Event::Written), Action::Close);
    assert_eq!(manager.phase(), Phase::ServerShutdown);
    assert_eq!(manager.step(&mut queue, Event::Wake), Action::Done);
    assert_eq!(manager.phase(), Phase::Terminated);
}

#[test]
fn connection_that_closes_before_subscribing_never_subscribes() {
    let mut queue: Broadcaster<Message> = Broadcaster::new(10);
    let mut manager = SubscriptionManager::new(ChannelScope::Room(3));
    assert_eq!(manager.step(&mut queue, Event::PeerClosed), Action::Close);
    assert_eq!(manager.phase(), Phase::ClientClosed);
    assert_eq!(queue.audience(ChannelScope::Room(3)), 0);
    assert_eq!(manager.step(&mut queue, Event::Wake), Action::Done);
    assert_eq!(manager.phase(), Phase::Terminated);
}

#[test]
fn relay_hands_frames_on_verbatim_to_every_peer() {
    let mut queue: Broadcaster<Frame> = Broadcaster::new(32);
    let mut one = handle_socket(&mut queue);
    let mut two = handle_socket(&mut queue);
    assert_eq!(one.phase(), Phase::Subscribed);
    let hello = Frame::Text("hello".to_string());
    let bytes = Frame::Binary(vec![0, 159, 255]);
    assert_eq!(recv_from_client(&mut queue, Some(hello.clone())), Inbound::Relayed(2));
    assert_eq!(recv_from_client(&mut queue, Some(bytes.clone())), Inbound::Relayed(2));
    for manager in [&mut one, &mut two] {
        assert_eq!(recv_broadcast(manager, &mut queue, Event::Wake), Action::Write(hello.clone()));
        assert_eq!(recv_broadcast(manager, &mut queue, Event::Written), Action::Write(bytes.clone()));
        assert_eq!(recv_broadcast(manager, &mut queue, Event::Written), Action::Wait);
    }
}

#[test]
fn relay_stops_reading_on_close_and_end_of_stream() {
    let mut queue: Broadcaster<Frame> = Broadcaster::new(32);
    let mut peer = handle_socket(&mut queue);
    assert_eq!(recv_from_client(&mut queue, Some(Frame::Close)), Inbound::Stop);
    assert_eq!(recv_from_client(&mut queue, None), Inbound::Stop);
    assert_eq!(recv_broadcast(&mut peer, &mut queue, Event::Wake), Action::Wait);
}

#[test]
fn relay_goes_on_when_nobody_listens() {
    let mut queue: Broadcaster<Frame> = Broadcaster::new(32);
    assert_eq!(recv_from_client(&mut queue, Some(Frame::Ping(vec![1]))), Inbound::Unheard);
    let _peer = handle_socket(&mut queue);
    assert_eq!(recv_from_client(&mut queue, Some(Frame::Pong(vec![1]))), Inbound::Relayed(1));
    queue.shutdown();
    assert_eq!(
        recv_from_client(&mut queue, Some(Frame::Text("late".to_string()))),
        Inbound::Unheard
    );
}

#[test]
fn relay_skips_the_lag_notice() {
    let mut queue: Broadcaster<Frame> = Broadcaster::new(2);
    let mut peer = handle_socket(&mut queue);
    for n in 0..5u8 {
        recv_from_client(&mut queue, Some(Frame::Binary(vec![n])));
    }
    assert_eq!(
        recv_broadcast(&mut peer, &mut queue, Event::Wake),
        Action::Write(Frame::Binary(vec![3]))
    );
    assert_eq!(
        recv_broadcast(&mut peer, &mut queue, Event::Written),
        Action::Write(Frame::Binary(vec![4]))
    );
    assert_eq!(recv_broadcast(&mut peer, &mut queue, Event::PeerClosed), Action::Close);
    assert_eq!(recv_broadcast(&mut peer, &mut queue, Event::Wake), Action::Done);
}

#[test]
fn relay_forwarder_subscribes_when_it_was_not_subscribed_yet() {
    let mut queue: Broadcaster<Frame> = Broadcaster::new(4);
    let mut fresh = SubscriptionManager::new(ChannelScope::Global);
    assert_eq!(recv_broadcast(&mut fresh, &mut queue, Event::Wake), Action::Wait);
    assert_eq!(fresh.phase(), Phase::Subscribed);
    assert_eq!(recv_from_client(&mut queue, Some(Frame::Text("x".to_string()))), Inbound::Relayed(1));
    assert_eq!(
        recv_broadcast(&mut fresh, &mut queue, Event::Wake),
        Action::Write(Frame::Text("x".to_string()))
    );
}
