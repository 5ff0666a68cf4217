use user_role_store::models::CreateUserDTO;
use user_role_store::storage::{
    default_roles, default_users, load_roles, load_users, save_users, Datafile,
};
use user_role_store::user_store::UserStore;

fn dto(full_name: &str, roles: Vec<&str>) -> CreateUserDTO {
    CreateUserDTO {
        full_name: full_name.to_string(),
        is_blocked: false,
        roles: roles.into_iter().map(|r| r.to_string()).collect(),
    }
}

#[test]
fn save_then_load_yields_equal_mapping() {
    let mut store = UserStore::new();
    store.create_with_id("u1".to_string(), &dto("Alice Admin", vec!["admin", "user"])).unwrap();
    store.create_with_id("u2".to_string(), &dto("Bob", vec![])).unwrap();

    let mut file = Datafile { content: None };
    save_users(&mut file, &store);
    let loaded = load_users(&mut file);

    assert_eq!(loaded.list().len(), 2);
    let a = loaded.get(&"u1".to_string()).expect("u1 survives the round trip");
    assert_eq!(a.uuid, "u1");
    assert_eq!(a.full_name, "Alice Admin");
    assert!(!a.is_blocked);
    assert_eq!(a.roles, vec!["admin".to_string(), "user".to_string()]);
    let b = loaded.get(&"u2".to_string()).expect("u2 survives the round trip");
    assert_eq!(b.full_name, "Bob");
    assert!(b.roles.is_empty());
}

#[test]
fn round_trip_keeps_quotes_backslashes_and_newlines() {
    let mut store = UserStore::new();
    let tricky = "A \"quoted\\name\"\twith\nnewlines";
    store.create_with_id("u1".to_string(), &dto(tricky, vec!["r\"1\\"])).unwrap();

    let mut file = Datafile { content: None };
    save_users(&mut file, &store);
    let loaded = load_users(&mut file);
    let u = loaded.get(&"u1".to_string()).expect("record survives");
    assert_eq!(u.full_name, tricky);
    assert_eq!(u.roles, vec!["r\"1\\".to_string()]);
}

#[test]
fn serialized_document_has_the_expected_text() {
    let mut store = UserStore::new();
    store.create_with_id("a".to_string(), &dto("B", vec!["c"])).unwrap();
    let mut file = Datafile { content: None };
    save_users(&mut file, &store);
    assert_eq!(
        file.content.as_deref(),
        Some(r#"{"a":{"uuid":"a","full_name":"B","is_blocked":false,"roles":["c"]}}"#)
    );
}

#[test]
fn empty_store_round_trips() {
    let store = UserStore::new();
    let mut file = Datafile { content: None };
    save_users(&mut file, &store);
    assert_eq!(file.content.as_deref(), Some("{}"));
    let loaded = load_users(&mut file);
    assert!(loaded.list().is_empty());
}

#[test]
fn missing_location_yields_default_and_writes_it() {
    let mut file = Datafile { content: None };
    let store = load_users(&mut file);
    let u = store.get(&"user-1".to_string()).expect("seed user present");
    assert_eq!(u.full_name, "Alice Admin");
    assert!(!u.is_blocked);
    assert_eq!(u.roles, vec!["admin".to_string()]);

    let text = file.content.clone().expect("location was healed");
    assert!(text.contains("Alice Admin"));

    // loading again from the healed location parses, rather than healing anew
    let again = load_users(&mut file);
    assert_eq!(again.list().len(), store.list().len());
}

#[test]
fn invalid_content_yields_default_and_overwrites() {
    let mut file = Datafile { content: Some("this is not a document".to_string()) };
    let store = load_users(&mut file);
    assert!(store.get(&"user-1".to_string()).is_some());
    let healed = file.content.clone().expect("location was overwritten");
    assert!(healed.contains("user-1"));
    assert!(!healed.contains("this is not a document"));
}

#[test]
fn empty_and_whitespace_content_yield_default() {
    let mut file = Datafile { content: Some(String::new()) };
    assert!(load_users(&mut file).get(&"user-1".to_string()).is_some());

    let mut ws = Datafile { content: Some(" \n\t ".to_string()) };
    assert!(load_users(&mut ws).get(&"user-1".to_string()).is_some());
}

#[test]
fn loader_accepts_whitespace_between_tokens() {
    let text = "{ \"a\" : {\"uuid\": \"a\", \"full_name\": \"B\", \"is_blocked\": true, \"roles\": [ \"x\" , \"y\" ]} }\n";
    let mut file = Datafile { content: Some(text.to_string()) };
    let store = load_users(&mut file);
    let u = store.get(&"a".to_string()).expect("document parses");
    assert!(u.is_blocked);
    assert_eq!(u.roles, vec!["x".to_string(), "y".to_string()]);
    // a parse that succeeds leaves the location untouched
    assert_eq!(file.content.as_deref(), Some(text));
}

#[test]
fn duplicate_keys_keep_the_last_record() {
    let text = r#"{"a":{"uuid":"a","full_name":"First","is_blocked":false,"roles":[]},"a":{"uuid":"a","full_name":"Second","is_blocked":false,"roles":[]}}"#;
    let mut file = Datafile { content: Some(text.to_string()) };
    let store = load_users(&mut file);
    assert_eq!(store.list().len(), 1);
    assert_eq!(store.get(&"a".to_string()).unwrap().full_name, "Second");
}

#[test]
fn default_datasets_keep_the_seed_quirk() {
    let users = default_users();
    let u = users.get(&"user-1".to_string()).expect("seed user");
    assert_eq!(u.uuid, "user-1");
    assert_eq!(u.roles, vec!["admin".to_string()]);

    let roles = default_roles();
    let admin = roles.get(&"admin".to_string()).expect("seed admin role");
    assert_eq!(admin.uuid, "admin");
    assert_eq!(admin.name, "Admin");
    assert_eq!(admin.description, "Administrator role with full access.");
    // the second seed role is stored under the key `users` while its own
    // identifier field says `user`
    let user_role = roles.get(&"users".to_string()).expect("seed user role");
    assert_eq!(user_role.uuid, "user");
    assert_eq!(user_role.name, "User");
}

#[test]
fn role_document_round_trip() {
    let mut file = Datafile { content: None };
    let roles = load_roles(&mut file);
    assert_eq!(roles.list().len(), 2);
    let again = load_roles(&mut file);
    assert_eq!(again.list().len(), 2);
    assert_eq!(again.get(&"users".to_string()).unwrap().uuid, "user");
}

#[test]
fn truncated_document_heals_to_default() {
    let text = r#"{"a":{"uuid":"a","full_name":"B""#;
    let mut file = Datafile { content: Some(text.to_string()) };
    let store = load_users(&mut file);
    assert!(store.get(&"user-1".to_string()).is_some());
    assert!(store.get(&"a".to_string()).is_none());
}

#[test]
fn trailing_garbage_heals_to_default() {
    let text = r#"{"a":{"uuid":"a","full_name":"B","is_blocked":false,"roles":[]}} extra"#;
    let mut file = Datafile { content: Some(text.to_string()) };
    let store = load_users(&mut file);
    assert!(store.get(&"user-1".to_string()).is_some());
}
