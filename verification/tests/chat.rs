use chat_fanout::broadcaster::Delivery;
use chat_fanout::chat::{
    announce, forward, get_chat, next, persist, persist_at, preview_send_at, send, send_at,
    shutdown, subscribe, unsubscribe,
};
use chat_fanout::chat_room::{
    delete_room, get_room, post_room, preview_join, preview_post_room, preview_put_room, put_room,
};
use chat_fanout::error::ChatError;
use chat_fanout::message::{Message, NewMessage};
use chat_fanout::room::{NewRoom, Room};
use chat_fanout::scope::ChannelScope;
use chat_fanout::state::{AppState, DEFAULT_CAPACITY};
use chat_fanout::subscription::{Action, Event, Phase, SubscriptionManager};

fn strings(names: &[&str]) -> Vec<String> {
    names.iter().map(|n| n.to_string()).collect()
}

fn request(sender: &str, message: &str, room_id: i32) -> NewMessage {
    NewMessage { sender: sender.to_string(), message: message.to_string(), room_id }
}

fn engine_with_room(participants: &[&str]) -> AppState {
    let mut state = AppState::new(DEFAULT_CAPACITY);
    let made = post_room(&mut state, NewRoom { id: None, participants: strings(participants) });
    assert_eq!(made, Ok(Room { id: 1, participants: strings(participants) }));
    state
}

#[test]
fn send_joins_the_room_persists_and_delivers() {
    let mut state = engine_with_room(&[]);
    let first = subscribe(&mut state);
    let second = subscribe(&mut state);
    let sent = send_at(&mut state, request("alice", "hi", 1), 42);
    let expected = Message {
        id: 1,
        timestamp: 42,
        sender: "alice".to_string(),
        message: "hi".to_string(),
        room_id: 1,
    };
    assert_eq!(sent, Ok(expected.clone()));
    assert_eq!(state.rooms().get(1), Ok(Room { id: 1, participants: strings(&["alice"]) }));
    assert_eq!(get_chat(&state, Some(&"1".to_string())), Ok(vec![expected.clone()]));
    assert_eq!(next(&mut state, &first), Delivery::Message(expected.clone()));
    assert_eq!(next(&mut state, &second), Delivery::Message(expected));
    assert_eq!(next(&mut state, &first), Delivery::Pending);
}

#[test]
fn send_to_unknown_room_is_not_found_and_changes_nothing() {
    let mut state = engine_with_room(&["bob"]);
    assert_eq!(send_at(&mut state, request("alice", "hi", 2), 1), Err(ChatError::NotFound));
    assert_eq!(state.messages().len(), 0);
    assert_eq!(state.rooms().get(1), Ok(Room { id: 1, participants: strings(&["bob"]) }));
}

#[test]
fn send_without_subscribers_is_still_on_record() {
    let mut state = engine_with_room(&[]);
    let sent = send_at(&mut state, request("alice", "anyone?", 1), 7).unwrap();
    let late = subscribe(&mut state);
    assert_eq!(next(&mut state, &late), Delivery::Pending);
    assert_eq!(get_chat(&state, Some(&"1".to_string())), Ok(vec![sent]));
}

#[test]
fn send_after_shutdown_is_still_on_record() {
    let mut state = engine_with_room(&[]);
    let h = subscribe(&mut state);
    shutdown(&mut state);
    let sent = send_at(&mut state, request("alice", "too late", 1), 7).unwrap();
    assert_eq!(next(&mut state, &h), Delivery::Closed);
    assert_eq!(get_chat(&state, Some(&"1".to_string())), Ok(vec![sent]));
}

#[test]
fn many_sends_are_all_listed_once_with_rising_ids() {
    let mut state = engine_with_room(&[]);
    post_room(&mut state, NewRoom { id: None, participants: vec![] }).unwrap();
    for i in 0..25 {
        send_at(&mut state, request("alice", &format!("m{i}"), 1), 100 + i as i64).unwrap();
        send_at(&mut state, request("bob", "elsewhere", 2), 100 + i as i64).unwrap();
    }
    let history = get_chat(&state, Some(&"1".to_string())).unwrap();
    assert_eq!(history.len(), 25);
    for (i, m) in history.iter().enumerate() {
        assert_eq!(m.message, format!("m{i}"));
        assert_eq!(m.room_id, 1);
        assert_eq!(m.id, 2 * i as i32 + 1);
        if i > 0 {
            assert!(history[i - 1].id < m.id);
            assert!(history[i - 1].timestamp <= m.timestamp);
        }
    }
}

#[test]
fn send_reads_the_clock() {
    let mut state = engine_with_room(&[]);
    let sent = send(&mut state, request("alice", "now", 1)).unwrap();
    // Later than 2020-01-01 and earlier than 2200-01-01, in microseconds.
    assert!(sent.timestamp > 1_577_836_800_000_000);
    assert!(sent.timestamp < 7_258_118_400_000_000);
    assert_eq!(sent.id, 1);
    assert_eq!(get_chat(&state, Some(&"1".to_string())), Ok(vec![sent]));
}

#[test]
fn get_chat_refuses_a_missing_or_malformed_room_id() {
    let state = engine_with_room(&[]);
    assert_eq!(get_chat(&state, None), Err(ChatError::Validation));
    assert_eq!(get_chat(&state, Some(&"one".to_string())), Err(ChatError::Validation));
    assert_eq!(get_chat(&state, Some(&"".to_string())), Err(ChatError::Validation));
    assert_eq!(get_chat(&state, Some(&"99999999999".to_string())), Err(ChatError::Validation));
    assert_eq!(get_chat(&state, Some(&"77".to_string())), Ok(vec![]));
}

#[test]
fn repeated_joins_leave_one_entry() {
    let mut state = engine_with_room(&["bob"]);
    let alice = NewRoom { id: Some(1), participants: strings(&["alice"]) };
    for _ in 0..3 {
        assert_eq!(
            put_room(&mut state, alice.clone()),
            Ok(Room { id: 1, participants: strings(&["bob", "alice"]) })
        );
    }
    send_at(&mut state, request("alice", "hi", 1), 1).unwrap();
    send_at(&mut state, request("carol", "hi", 1), 2).unwrap();
    send_at(&mut state, request("bob", "hi", 1), 3).unwrap();
    assert_eq!(
        state.rooms().get(1),
        Ok(Room { id: 1, participants: strings(&["bob", "alice", "carol"]) })
    );
    let listed = state.rooms().get(1).unwrap().participants;
    assert_eq!(listed.iter().filter(|p| p.as_str() == "alice").count(), 1);
}

#[test]
fn post_room_removes_repeated_participants() {
    let mut state = AppState::new(DEFAULT_CAPACITY);
    let made = post_room(
        &mut state,
        NewRoom { id: Some(40), participants: strings(&["a", "b", "a", "c", "b"]) },
    );
    assert_eq!(made, Ok(Room { id: 1, participants: strings(&["a", "b", "c"]) }));
    let made = post_room(&mut state, NewRoom { id: None, participants: vec![] });
    assert_eq!(made, Ok(Room { id: 2, participants: vec![] }));
}

#[test]
fn put_room_adds_the_first_listed_participant_once() {
    let mut state = engine_with_room(&["bob"]);
    let update = NewRoom { id: Some(1), participants: strings(&["alice", "ignored"]) };
    let expected = Room { id: 1, participants: strings(&["bob", "alice"]) };
    assert_eq!(put_room(&mut state, update.clone()), Ok(expected.clone()));
    assert_eq!(put_room(&mut state, update), Ok(expected));
    assert_eq!(
        put_room(&mut state, NewRoom { id: None, participants: strings(&["x"]) }),
        Err(ChatError::Validation)
    );
    assert_eq!(
        put_room(&mut state, NewRoom { id: Some(1), participants: vec![] }),
        Err(ChatError::Validation)
    );
    assert_eq!(
        put_room(&mut state, NewRoom { id: Some(9), participants: strings(&["x"]) }),
        Err(ChatError::NotFound)
    );
    // The room is looked up before the list is read.
    assert_eq!(
        put_room(&mut state, NewRoom { id: Some(9), participants: vec![] }),
        Err(ChatError::NotFound)
    );
    assert_eq!(
        put_room(&mut state, NewRoom { id: None, participants: vec![] }),
        Err(ChatError::Validation)
    );
}

#[test]
fn get_room_lists_all_or_one() {
    let mut state = engine_with_room(&["bob"]);
    post_room(&mut state, NewRoom { id: None, participants: strings(&["carol"]) }).unwrap();
    let one = NewRoom { id: Some(1), participants: strings(&["bob"]) };
    let two = NewRoom { id: Some(2), participants: strings(&["carol"]) };
    assert_eq!(get_room(&state, None), Ok(vec![one.clone(), two.clone()]));
    assert_eq!(get_room(&state, Some(&"2".to_string())), Ok(vec![two]));
    assert_eq!(get_room(&state, Some(&"+1".to_string())), Ok(vec![one]));
    assert_eq!(get_room(&state, Some(&"3".to_string())), Err(ChatError::NotFound));
    assert_eq!(get_room(&state, Some(&"x".to_string())), Err(ChatError::Validation));
}

#[test]
fn delete_room_removes_messages_first_then_the_room() {
    let mut state = engine_with_room(&[]);
    post_room(&mut state, NewRoom { id: None, participants: vec![] }).unwrap();
    send_at(&mut state, request("alice", "a", 1), 1).unwrap();
    let kept = send_at(&mut state, request("bob", "b", 2), 2).unwrap();
    send_at(&mut state, request("alice", "c", 1), 3).unwrap();
    assert_eq!(state.messages().list_by_room(1).len(), 2);
    assert_eq!(delete_room(&mut state, Some(&"1".to_string())), Ok(()));
    assert_eq!(get_chat(&state, Some(&"1".to_string())), Ok(vec![]));
    assert_eq!(state.rooms().get(1), Err(ChatError::NotFound));
    assert_eq!(get_room(&state, Some(&"1".to_string())), Err(ChatError::NotFound));
    assert_eq!(get_chat(&state, Some(&"2".to_string())), Ok(vec![kept]));
    assert_eq!(delete_room(&mut state, Some(&"1".to_string())), Err(ChatError::NotFound));
    assert_eq!(delete_room(&mut state, None), Err(ChatError::Validation));
    assert_eq!(delete_room(&mut state, Some(&"1x".to_string())), Err(ChatError::Validation));
    assert_eq!(send_at(&mut state, request("alice", "gone", 1), 4), Err(ChatError::NotFound));
    let next = send_at(&mut state, request("alice", "d", 2), 5).unwrap();
    assert_eq!(next.id, 4);
}

#[test]
fn persist_records_without_delivering_and_announce_delivers() {
    let mut state = engine_with_room(&[]);
    let listener = subscribe(&mut state);
    let saved = persist_at(&mut state, request("alice", "hi", 1), 9).unwrap();
    assert_eq!(saved.id, 1);
    assert_eq!(get_chat(&state, Some(&"1".to_string())), Ok(vec![saved.clone()]));
    assert_eq!(state.rooms().get(1), Ok(Room { id: 1, participants: strings(&["alice"]) }));
    assert_eq!(next(&mut state, &listener), Delivery::Pending);
    assert_eq!(announce(&mut state, saved.clone()), Ok(1));
    assert_eq!(next(&mut state, &listener), Delivery::Message(saved));
    assert_eq!(persist_at(&mut state, request("alice", "hi", 3), 9), Err(ChatError::NotFound));
}

#[test]
fn announce_refuses_what_is_not_on_record() {
    let mut state = engine_with_room(&[]);
    let listener = subscribe(&mut state);
    let never_saved = Message {
        id: 1,
        timestamp: 0,
        sender: "mallory".to_string(),
        message: "psst".to_string(),
        room_id: 1,
    };
    assert_eq!(announce(&mut state, never_saved.clone()), Err(ChatError::NotFound));
    assert_eq!(announce(&mut state, Message { id: 0, ..never_saved.clone() }), Err(ChatError::NotFound));
    assert_eq!(next(&mut state, &listener), Delivery::Pending);
    // An id that was given out is not enough: the fields must be those on record.
    let real = persist_at(&mut state, request("alice", "first", 1), 5).unwrap();
    assert_eq!(announce(&mut state, never_saved.clone()), Err(ChatError::NotFound));
    let forged = Message { message: "forged".to_string(), ..real.clone() };
    assert_eq!(announce(&mut state, forged), Err(ChatError::NotFound));
    assert_eq!(next(&mut state, &listener), Delivery::Pending);
    assert!(state.messages().holds(&real));
    assert_eq!(announce(&mut state, real.clone()), Ok(1));
    assert_eq!(next(&mut state, &listener), Delivery::Message(real.clone()));
    // Nor does a message go out whose room, and with it the message, is gone.
    post_room(&mut state, NewRoom { id: None, participants: vec![] }).unwrap();
    let doomed = persist_at(&mut state, request("bob", "bye", 2), 6).unwrap();
    delete_room(&mut state, Some(&"2".to_string())).unwrap();
    assert_eq!(announce(&mut state, doomed), Err(ChatError::NotFound));
    assert_eq!(next(&mut state, &listener), Delivery::Pending);
    let saved = persist(&mut state, request("alice", "hi", 1)).unwrap();
    assert!(state.messages().has_assigned(saved.id));
    assert!(!state.messages().has_assigned(saved.id + 1));
    unsubscribe(&mut state, listener);
    assert_eq!(announce(&mut state, saved.clone()), Ok(0));
    shutdown(&mut state);
    assert_eq!(announce(&mut state, saved), Err(ChatError::ChannelClosed));
}

#[test]
fn live_connection_of_the_engine_forwards_what_is_posted() {
    let mut state = engine_with_room(&[]);
    let mut manager = SubscriptionManager::new(ChannelScope::Global);
    assert_eq!(forward(&mut state, &mut manager, Event::Wake), Action::Wait);
    assert_eq!(state.queue().audience(ChannelScope::Global), 1);
    let sent = send_at(&mut state, request("alice", "hi", 1), 3).unwrap();
    assert_eq!(forward(&mut state, &mut manager, Event::Wake), Action::Write(sent));
    assert_eq!(forward(&mut state, &mut manager, Event::Written), Action::Wait);
    assert_eq!(forward(&mut state, &mut manager, Event::PeerClosed), Action::Close);
    assert_eq!(manager.phase(), Phase::ClientClosed);
    assert_eq!(state.queue().audience(ChannelScope::Global), 0);
    assert!(!state.queue().is_closed());
}

#[test]
fn previews_say_what_would_happen_and_change_nothing() {
    let mut state = engine_with_room(&["bob"]);
    let wanted = request("alice", "hi", 1);
    let planned = preview_send_at(&state, &wanted, 11).unwrap();
    let joined = preview_join(&state, 1, &"alice".to_string()).unwrap();
    assert_eq!(joined, Room { id: 1, participants: strings(&["bob", "alice"]) });
    assert_eq!(state.messages().len(), 0);
    assert_eq!(state.rooms().get(1), Ok(Room { id: 1, participants: strings(&["bob"]) }));
    assert_eq!(send_at(&mut state, wanted, 11), Ok(planned));
    assert_eq!(state.rooms().get(1), Ok(joined));
    assert_eq!(preview_send_at(&state, &request("alice", "hi", 7), 1), Err(ChatError::NotFound));
    assert_eq!(preview_join(&state, 7, &"alice".to_string()), Err(ChatError::NotFound));

    let new_room = NewRoom { id: None, participants: strings(&["x", "x", "y"]) };
    let planned = preview_post_room(&state, &new_room).unwrap();
    assert_eq!(planned, Room { id: 2, participants: strings(&["x", "y"]) });
    assert_eq!(state.rooms().len(), 1);
    assert_eq!(post_room(&mut state, new_room), Ok(planned));

    let update = NewRoom { id: Some(2), participants: strings(&["z"]) };
    let planned = preview_put_room(&state, &update).unwrap();
    assert_eq!(put_room(&mut state, update), Ok(planned));
    assert_eq!(
        preview_put_room(&state, &NewRoom { id: Some(5), participants: vec![] }),
        Err(ChatError::NotFound)
    );
    assert_eq!(
        preview_put_room(&state, &NewRoom { id: Some(2), participants: vec![] }),
        Err(ChatError::Validation)
    );
    assert_eq!(
        preview_put_room(&state, &NewRoom { id: None, participants: strings(&["z"]) }),
        Err(ChatError::Validation)
    );
}
