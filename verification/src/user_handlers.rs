//! The compute parts of the user endpoints: each takes the store (and,
//! for mutations, the location) and returns what the transport layer
//! sends back. Every mutation persists the entire mapping before it
//! reports success.

use vstd::prelude::*;

use crate::ids::fresh_uuid;
use crate::models::{
    spec_apply_user_update, spec_user_from_create, spec_user_response_of, CreateUserDTO,
    RoleReference, RoleReferenceView, UpdateUserDTO, User, UserQuery, UserResponse, UserView,
    UsersResponse,
};
use crate::storage::{file_holds_users, save_users, Datafile};
use crate::user_store::{spec_user_matches, UserStore};

verus! {

/// Wraps each role identifier of a record as a reference.
#[verifier::loop_isolation(false)]
fn role_references(v: &Vec<String>) -> (r: Vec<RoleReference>)
    ensures
        r.deep_view() == Seq::new(
            v.deep_view().len(),
            |i: int| RoleReferenceView { uuid: v.deep_view()[i] },
        ),
{
    let ghost target = Seq::new(
        v.deep_view().len(),
        |i: int| RoleReferenceView { uuid: v.deep_view()[i] },
    );
    let mut r: Vec<RoleReference> = Vec::new();
    let mut i: usize = 0;
    while i < v.len()
        invariant
            i <= v.len(),
            r.deep_view() =~= target.take(i as int),
        decreases v.len() - i,
    {
        r.push(RoleReference { uuid: v[i].clone() });
        proof {
            assert(r.deep_view() =~= target.take(i as int + 1));
        }
        i = i + 1;
    }
    proof {
        assert(target.take(v@.len() as int) =~= target);
    }
    r
}

/// Shapes one user record for a response.
fn user_response_of(u: &User) -> (r: UserResponse)
    ensures
        r@ == spec_user_response_of(u@),
{
    let r = UserResponse {
        uuid: u.uuid.clone(),
        full_name: u.full_name.clone(),
        is_blocked: u.is_blocked,
        roles: role_references(&u.roles),
    };
    proof {
        assert(r@ =~= spec_user_response_of(u@));
    }
    r
}

/// The listing and search endpoint: every record matching the query,
/// shaped for the response body; every record when the query is empty.
#[verifier::loop_isolation(false)]
pub fn get_users(store: &UserStore, query: &UserQuery) -> (r: UsersResponse)
    ensures
        r.users.deep_view() == store.values().filter(
            |u: UserView| spec_user_matches(u, query@),
        ).map_values(|u: UserView| spec_user_response_of(u)),
{
    let found = store.search(query);
    let ghost target = found.deep_view().map_values(|u: UserView| spec_user_response_of(u));
    let mut users: Vec<UserResponse> = Vec::new();
    let mut i: usize = 0;
    while i < found.len()
        invariant
            i <= found.len(),
            users.deep_view() =~= target.take(i as int),
        decreases found.len() - i,
    {
        users.push(user_response_of(&found[i]));
        proof {
            assert(found.deep_view()[i as int] == found@[i as int]@);
            assert(users.deep_view() =~= target.take(i as int + 1));
        }
        i = i + 1;
    }
    proof {
        assert(target.take(found@.len() as int) =~= target);
    }
    UsersResponse { users }
}

/// The creation endpoint: generates a fresh identifier, inserts a record
/// built from the request, persists the whole mapping, and returns the
/// record as confirmation. Nothing is returned, and nothing changes, only
/// if the freshly drawn identifier is already taken.
pub fn create_user(store: &mut UserStore, file: &mut Datafile, dto: &CreateUserDTO) -> (r: Option<
    User,
>)
    requires
        old(store).wf(),
    ensures
        final(store).wf(),
        match r {
            Some(u) => {
                &&& !old(store)@.contains_key(u@.uuid)
                &&& u@ == spec_user_from_create(u@.uuid, dto@)
                &&& final(store)@ == old(store)@.insert(u@.uuid, u@)
                &&& file_holds_users(*final(file), *final(store))
            },
            None => *final(store) == *old(store) && *final(file) == *old(file),
        },
{
    let id = fresh_uuid();
    match store.create_with_id(id, dto) {
        Some(u) => {
            save_users(file, store);
            Some(u)
        },
        None => None,
    }
}

/// The update endpoint: applies exactly the present fields, persists the
/// whole mapping, and returns the updated record; nothing is returned,
/// and nothing changes, exactly when the identifier is absent.
pub fn update_user(
    store: &mut UserStore,
    file: &mut Datafile,
    id: &String,
    dto: &UpdateUserDTO,
) -> (r: Option<User>)
    requires
        old(store).wf(),
    ensures
        final(store).wf(),
        match r {
            Some(u) => {
                &&& old(store)@.contains_key(id@)
                &&& u@ == spec_apply_user_update(old(store)@[id@], dto@)
                &&& final(store)@ == old(store)@.insert(id@, u@)
                &&& file_holds_users(*final(file), *final(store))
            },
            None => !old(store)@.contains_key(id@) && *final(store) == *old(store) && *final(file)
                == *old(file),
        },
{
    match store.update(id, dto) {
        Some(u) => {
            save_users(file, store);
            Some(u)
        },
        None => None,
    }
}

/// The deletion endpoint: removes the record and persists the whole
/// mapping; reports false, with nothing changed, exactly when the
/// identifier is absent.
pub fn delete_user(store: &mut UserStore, file: &mut Datafile, id: &String) -> (r: bool)
    requires
        old(store).wf(),
    ensures
        final(store).wf(),
        r == old(store)@.contains_key(id@),
        r ==> final(store)@ == old(store)@.remove(id@) && file_holds_users(
            *final(file),
            *final(store),
        ),
        !r ==> *final(store) == *old(store) && *final(file) == *old(file),
{
    if store.delete(id) {
        save_users(file, store);
        true
    } else {
        false
    }
}

} // verus!
