use chat_fanout::chat::{get_chat, restore_message, send_at};
use chat_fanout::chat_room::{post_room, restore_room};
use chat_fanout::error::ChatError;
use chat_fanout::message::{Message, NewMessage};
use chat_fanout::record::{from_record, listed_in, record_joined, room_of, to_record, RoomRecord};
use chat_fanout::room::{NewRoom, Room};
use chat_fanout::state::AppState;

fn strings(names: &[&str]) -> Vec<String> {
    names.iter().map(|n| n.to_string()).collect()
}

fn row(id: i32, text: &str) -> RoomRecord {
    RoomRecord { id, participants: text.to_string() }
}

#[test]
fn to_record_writes_the_participants_as_json() {
    let room = Room { id: 3, participants: strings(&["alice", "bob"]) };
    assert_eq!(to_record(&room), row(3, r#"["alice","bob"]"#));
    let empty = Room { id: 4, participants: vec![] };
    assert_eq!(to_record(&empty), row(4, "[]"));
    let quoted = Room { id: 5, participants: strings(&["a\"b", "c\\d", "é"]) };
    assert_eq!(to_record(&quoted), row(5, r#"["a\"b","c\\d","é"]"#));
}

#[test]
fn from_record_reads_json_and_drops_repetitions() {
    assert_eq!(
        from_record(&row(3, r#" ["alice", "bob", "alice"] "#)),
        Ok(Room { id: 3, participants: strings(&["alice", "bob"]) })
    );
    assert_eq!(from_record(&row(1, "[]")), Ok(Room { id: 1, participants: vec![] }));
    assert_eq!(
        listed_in(&row(3, r#"["alice","bob","alice"]"#)),
        Ok(strings(&["alice", "bob", "alice"]))
    );
}

#[test]
fn from_record_refuses_what_is_no_list_of_strings() {
    for text in ["", "alice", "{}", "[1,2]", r#"["a""#, r#"["a"] x"#, "null"] {
        assert_eq!(from_record(&row(1, text)), Err(ChatError::Validation), "{text:?}");
        assert_eq!(listed_in(&row(1, text)), Err(ChatError::Validation), "{text:?}");
    }
}

#[test]
fn record_round_trip_keeps_the_room() {
    let room = Room { id: 9, participants: strings(&["x y", "\u{1F600}", "tab\there"]) };
    let written = to_record(&room);
    assert_eq!(from_record(&written), Ok(room));
}

#[test]
fn record_joined_adds_a_newcomer_once() {
    let start = row(1, "[]");
    let once = record_joined(&start, &"alice".to_string()).unwrap();
    assert_eq!(once, row(1, r#"["alice"]"#));
    let twice = record_joined(&once, &"alice".to_string()).unwrap();
    assert_eq!(twice, once);
    let more = record_joined(&twice, &"bob".to_string()).unwrap();
    assert_eq!(more, row(1, r#"["alice","bob"]"#));
    assert_eq!(
        record_joined(&row(1, "not json"), &"alice".to_string()),
        Err(ChatError::Validation)
    );
}

#[test]
fn room_of_keeps_first_occurrences() {
    assert_eq!(
        room_of(2, &strings(&["b", "a", "b", "c", "a"])),
        Room { id: 2, participants: strings(&["b", "a", "c"]) }
    );
}

#[test]
fn restore_rebuilds_the_engine_from_rows() {
    let mut state = AppState::new(10);
    assert_eq!(restore_room(&mut state, &row(2, r#"["alice","alice"]"#)), Ok(()));
    assert_eq!(restore_room(&mut state, &row(5, "[]")), Ok(()));
    assert_eq!(restore_room(&mut state, &row(5, "[]")), Err(ChatError::Conflict));
    assert_eq!(restore_room(&mut state, &row(3, "[]")), Err(ChatError::Conflict));
    assert_eq!(restore_room(&mut state, &row(i32::MAX, "[]")), Err(ChatError::Conflict));
    assert_eq!(restore_room(&mut state, &row(6, "oops")), Err(ChatError::Validation));
    assert_eq!(state.rooms().get(2), Ok(Room { id: 2, participants: strings(&["alice"]) }));
    assert_eq!(state.rooms().len(), 2);

    let old = Message {
        id: 7,
        timestamp: 1_000,
        sender: "alice".to_string(),
        message: "from before".to_string(),
        room_id: 2,
    };
    assert_eq!(restore_message(&mut state, old.clone()), Ok(()));
    assert_eq!(restore_message(&mut state, old.clone()), Err(ChatError::Conflict));
    let stray = Message { id: 8, room_id: 4, ..old.clone() };
    assert_eq!(restore_message(&mut state, stray), Err(ChatError::StoreError));

    let request =
        NewMessage { sender: "bob".to_string(), message: "and after".to_string(), room_id: 2 };
    let new = send_at(&mut state, request, 2_000).unwrap();
    assert_eq!(new.id, 8);
    assert_eq!(get_chat(&state, Some(&"2".to_string())), Ok(vec![old, new]));
    let made = post_room(&mut state, NewRoom { id: None, participants: vec![] }).unwrap();
    assert_eq!(made.id, 6);
}
