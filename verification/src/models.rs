//! Entity and request/response types for the user/role store.

use vstd::prelude::*;

verus! {

/// Mathematical model of a [`User`]: every field as a plain value.
#[verifier::ext_equal]
pub ghost struct UserView {
    pub uuid: Seq<char>,
    pub full_name: Seq<char>,
    pub is_blocked: bool,
    pub roles: Seq<Seq<char>>,
}

/// A user record: a generated identifier, a display name, a blocked flag and
/// a list of role identifiers (duplicates permitted, no referential checks).
pub struct User {
    pub uuid: String,
    pub full_name: String,
    pub is_blocked: bool,
    pub roles: Vec<String>,
}

impl View for User {
    type V = UserView;

    open spec fn view(&self) -> UserView {
        UserView {
            uuid: self.uuid@,
            full_name: self.full_name@,
            is_blocked: self.is_blocked,
            roles: self.roles.deep_view(),
        }
    }
}

impl DeepView for User {
    type V = UserView;

    open spec fn deep_view(&self) -> UserView {
        self.view()
    }
}

/// Mathematical model of a [`Role`].
#[verifier::ext_equal]
pub ghost struct RoleView {
    pub uuid: Seq<char>,
    pub name: Seq<char>,
    pub description: Seq<char>,
}

/// A role record: a generated identifier, a name and a description.
pub struct Role {
    pub uuid: String,
    pub name: String,
    pub description: String,
}

impl View for Role {
    type V = RoleView;

    open spec fn view(&self) -> RoleView {
        RoleView { uuid: self.uuid@, name: self.name@, description: self.description@ }
    }
}

impl DeepView for Role {
    type V = RoleView;

    open spec fn deep_view(&self) -> RoleView {
        self.view()
    }
}

/// Clones every string of a vector; the result views equal.
pub fn clone_string_vec(v: &Vec<String>) -> (r: Vec<String>)
    ensures
        r@ == v@,
{
    let mut r: Vec<String> = Vec::new();
    let mut i: usize = 0;
    while i < v.len()
        invariant
            i <= v.len(),
            r@ =~= v@.subrange(0, i as int),
        decreases v.len() - i,
    {
        r.push(v[i].clone());
        i = i + 1;
    }
    proof {
        assert(r@ =~= v@);
    }
    r
}

impl Clone for User {
    /// A clone carries the same identifier, name, flag and role list.
    fn clone(&self) -> (r: Self)
        ensures
            r@ == self@,
            r.uuid@ == self.uuid@,
    {
        let r = User {
            uuid: self.uuid.clone(),
            full_name: self.full_name.clone(),
            is_blocked: self.is_blocked,
            roles: clone_string_vec(&self.roles),
        };
        proof {
            assert(r.roles.deep_view() =~= self.roles.deep_view());
            assert(r@ =~= self@);
        }
        r
    }
}

impl Clone for Role {
    /// A clone carries the same identifier, name and description.
    fn clone(&self) -> (r: Self)
        ensures
            r@ == self@,
            r.uuid@ == self.uuid@,
    {
        let r = Role {
            uuid: self.uuid.clone(),
            name: self.name.clone(),
            description: self.description.clone(),
        };
        proof {
            assert(r@ =~= self@);
        }
        r
    }
}

/// Fields of a user creation request; the identifier is generated, never given.
pub struct CreateUserDTO {
    pub full_name: String,
    pub is_blocked: bool,
    pub roles: Vec<String>,
}

/// Model of a [`CreateUserDTO`].
#[verifier::ext_equal]
pub ghost struct CreateUserDtoView {
    pub full_name: Seq<char>,
    pub is_blocked: bool,
    pub roles: Seq<Seq<char>>,
}

impl View for CreateUserDTO {
    type V = CreateUserDtoView;

    open spec fn view(&self) -> CreateUserDtoView {
        CreateUserDtoView {
            full_name: self.full_name@,
            is_blocked: self.is_blocked,
            roles: self.roles.deep_view(),
        }
    }
}

/// A partial user update: only the fields that are present overwrite the
/// stored record; an absent field leaves the stored value untouched.
pub struct UpdateUserDTO {
    pub full_name: Option<String>,
    pub is_blocked: Option<bool>,
    pub roles: Option<Vec<String>>,
}

/// Model of an [`UpdateUserDTO`].
#[verifier::ext_equal]
pub ghost struct UpdateUserDtoView {
    pub full_name: Option<Seq<char>>,
    pub is_blocked: Option<bool>,
    pub roles: Option<Seq<Seq<char>>>,
}

impl View for UpdateUserDTO {
    type V = UpdateUserDtoView;

    open spec fn view(&self) -> UpdateUserDtoView {
        UpdateUserDtoView {
            full_name: self.full_name.deep_view(),
            is_blocked: self.is_blocked,
            roles: self.roles.deep_view(),
        }
    }
}

/// The record that a user update leaves in the store: present fields replace
/// the stored ones, absent fields are kept; the identifier never changes.
pub open spec fn spec_apply_user_update(u: UserView, d: UpdateUserDtoView) -> UserView {
    UserView {
        uuid: u.uuid,
        full_name: match d.full_name {
            Some(n) => n,
            None => u.full_name,
        },
        is_blocked: match d.is_blocked {
            Some(b) => b,
            None => u.is_blocked,
        },
        roles: match d.roles {
            Some(r) => r,
            None => u.roles,
        },
    }
}

/// Omission is idempotence: a field absent from an update request leaves
/// the stored field unchanged, the identifier never changes, and an
/// update with every field absent leaves the whole record unchanged.
pub proof fn lemma_user_update_absent_fields()
    ensures
        forall|u: UserView, d: UpdateUserDtoView|
            d.full_name is None ==> (#[trigger] spec_apply_user_update(u, d)).full_name
                == u.full_name,
        forall|u: UserView, d: UpdateUserDtoView|
            d.is_blocked is None ==> (#[trigger] spec_apply_user_update(u, d)).is_blocked
                == u.is_blocked,
        forall|u: UserView, d: UpdateUserDtoView|
            d.roles is None ==> (#[trigger] spec_apply_user_update(u, d)).roles == u.roles,
        forall|u: UserView, d: UpdateUserDtoView|
            (#[trigger] spec_apply_user_update(u, d)).uuid == u.uuid,
        forall|u: UserView|
            #[trigger] spec_apply_user_update(
                u,
                (UpdateUserDtoView { full_name: None, is_blocked: None, roles: None }),
            ) == u,
{
    assert forall|u: UserView|
        #[trigger] spec_apply_user_update(
            u,
            (UpdateUserDtoView { full_name: None, is_blocked: None, roles: None }),
        ) == u by {
        assert(spec_apply_user_update(
            u,
            (UpdateUserDtoView { full_name: None, is_blocked: None, roles: None }),
        ) =~= u);
    }
}

/// Fields of a role creation request.
pub struct CreateRoleDTO {
    pub name: String,
    pub description: String,
}

/// Model of a [`CreateRoleDTO`].
#[verifier::ext_equal]
pub ghost struct CreateRoleDtoView {
    pub name: Seq<char>,
    pub description: Seq<char>,
}

impl View for CreateRoleDTO {
    type V = CreateRoleDtoView;

    open spec fn view(&self) -> CreateRoleDtoView {
        CreateRoleDtoView { name: self.name@, description: self.description@ }
    }
}

/// A partial role update.
pub struct UpdateRoleDTO {
    pub name: Option<String>,
    pub description: Option<String>,
}

/// Model of an [`UpdateRoleDTO`].
#[verifier::ext_equal]
pub ghost struct UpdateRoleDtoView {
    pub name: Option<Seq<char>>,
    pub description: Option<Seq<char>>,
}

impl View for UpdateRoleDTO {
    type V = UpdateRoleDtoView;

    open spec fn view(&self) -> UpdateRoleDtoView {
        UpdateRoleDtoView {
            name: self.name.deep_view(),
            description: self.description.deep_view(),
        }
    }
}

/// The record that a role update leaves in the store.
pub open spec fn spec_apply_role_update(r: RoleView, d: UpdateRoleDtoView) -> RoleView {
    RoleView {
        uuid: r.uuid,
        name: match d.name {
            Some(n) => n,
            None => r.name,
        },
        description: match d.description {
            Some(s) => s,
            None => r.description,
        },
    }
}

/// Omission is idempotence, for roles.
pub proof fn lemma_role_update_absent_fields()
    ensures
        forall|r: RoleView, d: UpdateRoleDtoView|
            d.name is None ==> (#[trigger] spec_apply_role_update(r, d)).name == r.name,
        forall|r: RoleView, d: UpdateRoleDtoView|
            d.description is None ==> (#[trigger] spec_apply_role_update(r, d)).description
                == r.description,
        forall|r: RoleView, d: UpdateRoleDtoView|
            (#[trigger] spec_apply_role_update(r, d)).uuid == r.uuid,
        forall|r: RoleView|
            #[trigger] spec_apply_role_update(
                r,
                (UpdateRoleDtoView { name: None, description: None }),
            ) == r,
{
    assert forall|r: RoleView|
        #[trigger] spec_apply_role_update(
            r,
            (UpdateRoleDtoView { name: None, description: None }),
        ) == r by {
        assert(spec_apply_role_update(
            r,
            (UpdateRoleDtoView { name: None, description: None }),
        ) =~= r);
    }
}

/// The record that a creation request puts into the store, under a
/// generated identifier.
pub open spec fn spec_user_from_create(id: Seq<char>, d: CreateUserDtoView) -> UserView {
    UserView { uuid: id, full_name: d.full_name, is_blocked: d.is_blocked, roles: d.roles }
}

/// The record that a role creation request puts into the store.
pub open spec fn spec_role_from_create(id: Seq<char>, d: CreateRoleDtoView) -> RoleView {
    RoleView { uuid: id, name: d.name, description: d.description }
}

/// Filter for user searches; an absent key matches every record.
pub struct UserQuery {
    pub uuid: Option<String>,
    pub full_name: Option<String>,
}

/// Model of a [`UserQuery`].
#[verifier::ext_equal]
pub ghost struct UserQueryView {
    pub uuid: Option<Seq<char>>,
    pub full_name: Option<Seq<char>>,
}

impl View for UserQuery {
    type V = UserQueryView;

    open spec fn view(&self) -> UserQueryView {
        UserQueryView { uuid: self.uuid.deep_view(), full_name: self.full_name.deep_view() }
    }
}

/// Filter for role searches; an absent key matches every record.
pub struct RoleQuery {
    pub uuid: Option<String>,
    pub name: Option<String>,
}

/// Model of a [`RoleQuery`].
#[verifier::ext_equal]
pub ghost struct RoleQueryView {
    pub uuid: Option<Seq<char>>,
    pub name: Option<Seq<char>>,
}

impl View for RoleQuery {
    type V = RoleQueryView;

    open spec fn view(&self) -> RoleQueryView {
        RoleQueryView { uuid: self.uuid.deep_view(), name: self.name.deep_view() }
    }
}

/// A role identifier as it appears inside a user response.
pub struct RoleReference {
    pub uuid: String,
}

/// Model of a [`RoleReference`].
#[verifier::ext_equal]
pub ghost struct RoleReferenceView {
    pub uuid: Seq<char>,
}

impl View for RoleReference {
    type V = RoleReferenceView;

    open spec fn view(&self) -> RoleReferenceView {
        RoleReferenceView { uuid: self.uuid@ }
    }
}

impl DeepView for RoleReference {
    type V = RoleReferenceView;

    open spec fn deep_view(&self) -> RoleReferenceView {
        self.view()
    }
}

/// A user record shaped for a response: each role identifier is wrapped
/// as a [`RoleReference`].
pub struct UserResponse {
    pub uuid: String,
    pub full_name: String,
    pub is_blocked: bool,
    pub roles: Vec<RoleReference>,
}

/// Model of a [`UserResponse`].
#[verifier::ext_equal]
pub ghost struct UserResponseView {
    pub uuid: Seq<char>,
    pub full_name: Seq<char>,
    pub is_blocked: bool,
    pub roles: Seq<RoleReferenceView>,
}

impl View for UserResponse {
    type V = UserResponseView;

    open spec fn view(&self) -> UserResponseView {
        UserResponseView {
            uuid: self.uuid@,
            full_name: self.full_name@,
            is_blocked: self.is_blocked,
            roles: self.roles.deep_view(),
        }
    }
}

impl DeepView for UserResponse {
    type V = UserResponseView;

    open spec fn deep_view(&self) -> UserResponseView {
        self.view()
    }
}

/// The response shape of a user record: the same fields, each role
/// identifier wrapped as a reference.
pub open spec fn spec_user_response_of(u: UserView) -> UserResponseView {
    UserResponseView {
        uuid: u.uuid,
        full_name: u.full_name,
        is_blocked: u.is_blocked,
        roles: Seq::new(u.roles.len(), |i: int| RoleReferenceView { uuid: u.roles[i] }),
    }
}

/// The body of a user listing.
pub struct UsersResponse {
    pub users: Vec<UserResponse>,
}

/// The body of a role listing.
pub struct RolesResponse {
    pub roles: Vec<Role>,
}

} // verus!
