use user_role_store::models::{CreateRoleDTO, CreateUserDTO, RoleQuery, UserQuery};
use user_role_store::role_handlers::get_roles;
use user_role_store::role_store::RoleStore;
use user_role_store::user_handlers::get_users;
use user_role_store::user_store::UserStore;

fn user(full_name: &str, roles: Vec<&str>) -> CreateUserDTO {
    CreateUserDTO {
        full_name: full_name.to_string(),
        is_blocked: false,
        roles: roles.into_iter().map(|r| r.to_string()).collect(),
    }
}

fn sample_users() -> UserStore {
    let mut store = UserStore::new();
    store.create_with_id("u1".to_string(), &user("Alice Admin", vec!["admin"])).unwrap();
    store.create_with_id("u2".to_string(), &user("Bob Builder", vec!["user"])).unwrap();
    store.create_with_id("u3".to_string(), &user("Carol ADMIRER", vec![])).unwrap();
    store
}

#[test]
fn search_without_filters_returns_everything() {
    let store = sample_users();
    let q = UserQuery { uuid: None, full_name: None };
    let found = store.search(&q);
    let all = store.list();
    assert_eq!(found.len(), all.len());
    for (f, a) in found.iter().zip(all.iter()) {
        assert_eq!(f.uuid, a.uuid);
        assert_eq!(f.full_name, a.full_name);
    }
}

#[test]
fn search_name_filter_is_case_insensitive() {
    let store = sample_users();
    let q = UserQuery { uuid: None, full_name: Some("admi".to_string()) };
    let found = store.search(&q);
    assert_eq!(found.len(), 2);
    assert_eq!(found[0].full_name, "Alice Admin");
    assert_eq!(found[1].full_name, "Carol ADMIRER");

    let q_upper = UserQuery { uuid: None, full_name: Some("ADMI".to_string()) };
    let found_upper = store.search(&q_upper);
    assert_eq!(found_upper.len(), 2);
}

#[test]
fn search_uuid_filter_is_exact() {
    let store = sample_users();
    let q = UserQuery { uuid: Some("u2".to_string()), full_name: None };
    let found = store.search(&q);
    assert_eq!(found.len(), 1);
    assert_eq!(found[0].full_name, "Bob Builder");

    let q_prefix = UserQuery { uuid: Some("u".to_string()), full_name: None };
    assert!(store.search(&q_prefix).is_empty());
}

#[test]
fn search_with_no_match_is_empty_not_an_error() {
    let store = sample_users();
    let q = UserQuery { uuid: None, full_name: Some("zebra".to_string()) };
    assert!(store.search(&q).is_empty());
}

#[test]
fn search_combines_filters_with_and() {
    let store = sample_users();
    let q = UserQuery { uuid: Some("u2".to_string()), full_name: Some("admi".to_string()) };
    assert!(store.search(&q).is_empty());
    let q2 = UserQuery { uuid: Some("u1".to_string()), full_name: Some("admi".to_string()) };
    assert_eq!(store.search(&q2).len(), 1);
}

#[test]
fn get_users_shapes_roles_as_references() {
    let store = sample_users();
    let q = UserQuery { uuid: Some("u1".to_string()), full_name: None };
    let body = get_users(&store, &q);
    assert_eq!(body.users.len(), 1);
    assert_eq!(body.users[0].uuid, "u1");
    assert_eq!(body.users[0].roles.len(), 1);
    assert_eq!(body.users[0].roles[0].uuid, "admin");
}

#[test]
fn role_search_matches_stored_name_admin_case_insensitively() {
    let mut store = RoleStore::new();
    let dto = CreateRoleDTO {
        name: "Admin".to_string(),
        description: "Full access.".to_string(),
    };
    store.create_with_id("r1".to_string(), &dto).unwrap();
    let q = RoleQuery { uuid: None, name: Some("admin".to_string()) };
    let body = get_roles(&store, &q);
    assert_eq!(body.roles.len(), 1);
    assert_eq!(body.roles[0].name, "Admin");
}
