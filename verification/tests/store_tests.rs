use user_role_store::models::{CreateRoleDTO, CreateUserDTO, UpdateRoleDTO, UpdateUserDTO};
use user_role_store::role_store::RoleStore;
use user_role_store::storage::Datafile;
use user_role_store::user_handlers::{create_user, delete_user, update_user};
use user_role_store::user_store::UserStore;

fn alice_dto() -> CreateUserDTO {
    CreateUserDTO {
        full_name: "Alice Admin".to_string(),
        is_blocked: false,
        roles: vec!["admin".to_string()],
    }
}

#[test]
fn create_with_id_then_get() {
    let mut store = UserStore::new();
    let created = store.create_with_id("id-1".to_string(), &alice_dto());
    let u = created.expect("fresh identifier must be accepted");
    assert_eq!(u.uuid, "id-1");
    assert_eq!(u.full_name, "Alice Admin");
    assert!(!u.is_blocked);
    assert_eq!(u.roles, vec!["admin".to_string()]);

    let got = store.get(&"id-1".to_string()).expect("stored record must be found");
    assert_eq!(got.uuid, "id-1");
    assert_eq!(got.full_name, "Alice Admin");
    assert_eq!(got.roles, vec!["admin".to_string()]);
}

#[test]
fn create_with_taken_id_is_refused() {
    let mut store = UserStore::new();
    assert!(store.create_with_id("id-1".to_string(), &alice_dto()).is_some());
    assert!(store.create_with_id("id-1".to_string(), &alice_dto()).is_none());
    assert_eq!(store.list().len(), 1);
}

#[test]
fn scenario_create_get_delete_get() {
    let mut store = UserStore::new();
    let mut file = Datafile { content: None };
    let u = create_user(&mut store, &mut file, &alice_dto())
        .expect("a freshly generated identifier must be accepted");
    assert!(!u.uuid.is_empty());
    let got = store.get(&u.uuid).expect("created record must be found");
    assert_eq!(got.full_name, "Alice Admin");
    assert_eq!(got.roles, vec!["admin".to_string()]);

    assert!(delete_user(&mut store, &mut file, &u.uuid));
    assert!(store.get(&u.uuid).is_none());
}

#[test]
fn created_identifiers_are_distinct() {
    let mut store = UserStore::new();
    let mut file = Datafile { content: None };
    let mut seen: Vec<String> = Vec::new();
    for _ in 0..10 {
        let u = create_user(&mut store, &mut file, &alice_dto()).expect("create must succeed");
        assert!(!seen.contains(&u.uuid));
        seen.push(u.uuid);
    }
    assert_eq!(store.list().len(), 10);
}

#[test]
fn update_applies_only_present_fields() {
    let mut store = UserStore::new();
    store.create_with_id("id-1".to_string(), &alice_dto()).unwrap();
    let partial = UpdateUserDTO { full_name: None, is_blocked: Some(true), roles: None };
    let u = store.update(&"id-1".to_string(), &partial).expect("record exists");
    assert_eq!(u.uuid, "id-1");
    assert_eq!(u.full_name, "Alice Admin");
    assert!(u.is_blocked);
    assert_eq!(u.roles, vec!["admin".to_string()]);
}

#[test]
fn update_with_no_fields_changes_nothing() {
    let mut store = UserStore::new();
    store.create_with_id("id-1".to_string(), &alice_dto()).unwrap();
    let empty = UpdateUserDTO { full_name: None, is_blocked: None, roles: None };
    let u = store.update(&"id-1".to_string(), &empty).expect("record exists");
    assert_eq!(u.full_name, "Alice Admin");
    assert!(!u.is_blocked);
    assert_eq!(u.roles, vec!["admin".to_string()]);
}

#[test]
fn update_missing_id_is_not_found() {
    let mut store = UserStore::new();
    let mut file = Datafile { content: None };
    let empty = UpdateUserDTO { full_name: None, is_blocked: None, roles: None };
    assert!(update_user(&mut store, &mut file, &"nope".to_string(), &empty).is_none());
    assert!(file.content.is_none());
}

#[test]
fn delete_missing_id_is_not_found() {
    let mut store = UserStore::new();
    let mut file = Datafile { content: None };
    assert!(!delete_user(&mut store, &mut file, &"nope".to_string()));
    assert!(file.content.is_none());
}

#[test]
fn role_store_crud() {
    let mut store = RoleStore::new();
    let dto = CreateRoleDTO {
        name: "Admin".to_string(),
        description: "Full access.".to_string(),
    };
    let r = store.create_with_id("admin".to_string(), &dto).expect("fresh id");
    assert_eq!(r.uuid, "admin");
    assert_eq!(r.name, "Admin");

    let upd = UpdateRoleDTO { name: None, description: Some("Everything.".to_string()) };
    let r2 = store.update(&"admin".to_string(), &upd).expect("record exists");
    assert_eq!(r2.name, "Admin");
    assert_eq!(r2.description, "Everything.");

    assert!(store.delete(&"admin".to_string()));
    assert!(store.get(&"admin".to_string()).is_none());
    assert!(!store.delete(&"admin".to_string()));
}
