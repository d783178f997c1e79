use chat_fanout::error::ChatError;
use chat_fanout::registry::RoomRegistry;
use chat_fanout::room::{deduplicate, is_member, join, Room};
use chat_fanout::store::MessageStore;

fn strings(names: &[&str]) -> Vec<String> {
    names.iter().map(|n| n.to_string()).collect()
}

#[test]
fn join_is_idempotent_and_keeps_first_seen_order() {
    let mut members = strings(&["bob"]);
    assert!(join(&mut members, &"alice".to_string()));
    assert!(!join(&mut members, &"alice".to_string()));
    assert!(!join(&mut members, &"bob".to_string()));
    assert!(join(&mut members, &"".to_string()));
    assert_eq!(members, strings(&["bob", "alice", ""]));
    assert!(is_member(&members, &"alice".to_string()));
    assert!(!is_member(&members, &"Alice".to_string()));
    assert_eq!(members.iter().filter(|m| m.as_str() == "alice").count(), 1);
}

#[test]
fn deduplicate_keeps_first_occurrences() {
    assert_eq!(deduplicate(&strings(&["a", "a", "b", "a", "c", "b"])), strings(&["a", "b", "c"]));
    assert_eq!(deduplicate(&vec![]), Vec::<String>::new());
}

#[test]
fn registry_assigns_rising_ids_and_finds_rooms() {
    let mut rooms = RoomRegistry::new();
    assert_eq!(rooms.len(), 0);
    assert_eq!(rooms.get(1), Err(ChatError::NotFound));
    assert_eq!(rooms.create(&strings(&["a"])), Ok(Room { id: 1, participants: strings(&["a"]) }));
    assert_eq!(rooms.create(&strings(&["b"])), Ok(Room { id: 2, participants: strings(&["b"]) }));
    assert!(rooms.contains(2));
    assert!(!rooms.contains(3));
    assert_eq!(
        rooms.list(),
        vec![
            Room { id: 1, participants: strings(&["a"]) },
            Room { id: 2, participants: strings(&["b"]) }
        ]
    );
    let store = MessageStore::new();
    assert_eq!(rooms.delete(&store, 1), Ok(()));
    assert_eq!(rooms.delete(&store, 1), Err(ChatError::NotFound));
    assert_eq!(rooms.get(2), Ok(Room { id: 2, participants: strings(&["b"]) }));
    // Ids of deleted rooms are not given out again.
    assert_eq!(rooms.create(&vec![]), Ok(Room { id: 3, participants: vec![] }));
}

#[test]
fn registry_refuses_when_ids_run_out() {
    let mut rooms = RoomRegistry::new();
    assert_eq!(rooms.adopt(i32::MAX - 1, &vec![]), Ok(()));
    assert_eq!(rooms.create(&vec![]), Err(ChatError::StoreError));
    assert_eq!(rooms.len(), 1);
}

#[test]
fn store_appends_lists_and_deletes_by_room() {
    let mut rooms = RoomRegistry::new();
    rooms.create(&vec![]).unwrap();
    rooms.create(&vec![]).unwrap();
    let mut store = MessageStore::new();
    let a = store.append(&rooms, "alice".to_string(), "one".to_string(), 1, 10).unwrap();
    let b = store.append(&rooms, "bob".to_string(), "two".to_string(), 2, 11).unwrap();
    let c = store.append(&rooms, "alice".to_string(), "three".to_string(), 1, 12).unwrap();
    assert_eq!((a.id, b.id, c.id), (1, 2, 3));
    assert_eq!(a.timestamp, 10);
    assert_eq!(
        store.append(&rooms, "x".to_string(), "y".to_string(), 3, 13),
        Err(ChatError::StoreError)
    );
    assert_eq!(store.len(), 3);
    assert_eq!(store.list_by_room(1), vec![a, c]);
    assert_eq!(store.list_by_room(9), vec![]);
    assert!(store.has_messages(2));
    assert!(!store.has_messages(9));
    assert_eq!(rooms.delete(&store, 1), Err(ChatError::Conflict));
    assert_eq!(store.delete_by_room(1), 2);
    assert_eq!(store.delete_by_room(1), 0);
    assert_eq!(store.list_by_room(1), vec![]);
    assert_eq!(store.list_by_room(2), vec![b]);
    assert_eq!(rooms.delete(&store, 1), Ok(()));
}

#[test]
fn store_refuses_when_ids_run_out() {
    let mut rooms = RoomRegistry::new();
    rooms.create(&vec![]).unwrap();
    let mut store = MessageStore::new();
    let last = chat_fanout::message::Message {
        id: i32::MAX - 1,
        timestamp: 0,
        sender: "a".to_string(),
        message: "b".to_string(),
        room_id: 1,
    };
    assert_eq!(store.adopt(&rooms, last), Ok(()));
    assert_eq!(
        store.append(&rooms, "a".to_string(), "b".to_string(), 1, 1),
        Err(ChatError::StoreError)
    );
    assert_eq!(store.len(), 1);
}
