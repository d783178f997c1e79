use chat_fanout::error::ChatError;
use chat_fanout::user::{UpsertModel, User};

fn user(id: i32, username: &str, password: &str) -> User {
    User { id, username: username.to_string(), password: password.to_string() }
}

#[test]
fn update_replaces_only_what_it_names() {
    let on_record = user(4, "alice", "secret");
    let rename = UpsertModel { id: Some(4), username: Some("alicia".to_string()), password: None };
    assert_eq!(rename.apply(on_record.clone()), user(4, "alicia", "secret"));
    let rekey = UpsertModel { id: Some(99), username: None, password: Some("new".to_string()) };
    assert_eq!(rekey.apply(on_record.clone()), user(4, "alice", "new"));
    let nothing = UpsertModel { id: None, username: None, password: None };
    assert_eq!(nothing.apply(on_record.clone()), on_record);
}

#[test]
fn creation_needs_name_and_password() {
    let full = UpsertModel {
        id: None,
        username: Some("bob".to_string()),
        password: Some("pw".to_string()),
    };
    assert_eq!(full.create(1), Ok(user(1, "bob", "pw")));
    let nameless = UpsertModel { id: None, username: None, password: Some("pw".to_string()) };
    assert_eq!(nameless.create(1), Err(ChatError::Validation));
    let keyless = UpsertModel { id: None, username: Some("bob".to_string()), password: None };
    assert_eq!(keyless.create(1), Err(ChatError::Validation));
}
