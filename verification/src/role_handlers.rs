//! The compute parts of the role endpoints, mirroring the user ones.

use vstd::prelude::*;

use crate::ids::fresh_uuid;
use crate::models::{
    spec_apply_role_update, spec_role_from_create, CreateRoleDTO, Role, RoleQuery, RoleView,
    RolesResponse, UpdateRoleDTO,
};
use crate::role_store::{spec_role_matches, RoleStore};
use crate::storage::{file_holds_roles, save_roles, Datafile};

verus! {

/// The listing and search endpoint: every record matching the query;
/// every record when the query is empty.
pub fn get_roles(store: &RoleStore, query: &RoleQuery) -> (r: RolesResponse)
    ensures
        r.roles.deep_view() == store.values().filter(
            |x: RoleView| spec_role_matches(x, query@),
        ),
{
    RolesResponse { roles: store.search(query) }
}

/// The creation endpoint: generates a fresh identifier, inserts a record
/// built from the request, persists the whole mapping, and returns the
/// record as confirmation. Nothing is returned, and nothing changes, only
/// if the freshly drawn identifier is already taken.
pub fn create_role(store: &mut RoleStore, file: &mut Datafile, dto: &CreateRoleDTO) -> (r: Option<
    Role,
>)
    requires
        old(store).wf(),
    ensures
        final(store).wf(),
        match r {
            Some(role) => {
                &&& !old(store)@.contains_key(role@.uuid)
                &&& role@ == spec_role_from_create(role@.uuid, dto@)
                &&& final(store)@ == old(store)@.insert(role@.uuid, role@)
                &&& file_holds_roles(*final(file), *final(store))
            },
            None => *final(store) == *old(store) && *final(file) == *old(file),
        },
{
    let id = fresh_uuid();
    match store.create_with_id(id, dto) {
        Some(role) => {
            save_roles(file, store);
            Some(role)
        },
        None => None,
    }
}

/// The update endpoint: applies exactly the present fields, persists the
/// whole mapping, and returns the updated record; nothing is returned,
/// and nothing changes, exactly when the identifier is absent.
pub fn update_role(
    store: &mut RoleStore,
    file: &mut Datafile,
    id: &String,
    dto: &UpdateRoleDTO,
) -> (r: Option<Role>)
    requires
        old(store).wf(),
    ensures
        final(store).wf(),
        match r {
            Some(role) => {
                &&& old(store)@.contains_key(id@)
                &&& role@ == spec_apply_role_update(old(store)@[id@], dto@)
                &&& final(store)@ == old(store)@.insert(id@, role@)
                &&& file_holds_roles(*final(file), *final(store))
            },
            None => !old(store)@.contains_key(id@) && *final(store) == *old(store) && *final(file)
                == *old(file),
        },
{
    match store.update(id, dto) {
        Some(role) => {
            save_roles(file, store);
            Some(role)
        },
        None => None,
    }
}

/// The deletion endpoint: removes the record and persists the whole
/// mapping; reports false, with nothing changed, exactly when the
/// identifier is absent.
pub fn delete_role(store: &mut RoleStore, file: &mut Datafile, id: &String) -> (r: bool)
    requires
        old(store).wf(),
    ensures
        final(store).wf(),
        r == old(store)@.contains_key(id@),
        r ==> final(store)@ == old(store)@.remove(id@) && file_holds_roles(
            *final(file),
            *final(store),
        ),
        !r ==> *final(store) == *old(store) && *final(file) == *old(file),
{
    if store.delete(id) {
        save_roles(file, store);
        true
    } else {
        false
    }
}

} // verus!
