//! Whole-document persistence: a store is saved by rewriting the full
//! mapping at its location, and loaded back with self-healing defaults
//! when the location is missing or its content does not parse.

use vstd::prelude::*;
use vstd::string::StringExecFns;

use crate::json::{
    lemma_roles_round_trip, lemma_users_round_trip, parse_roles_doc, parse_roles_doc_exec,
    parse_users_doc, parse_users_doc_exec, ser_roles_text, ser_users_text, spec_ser_roles,
    spec_ser_users,
};
use crate::kvmap::{entries_view, map_of};
use crate::models::{Role, RoleView, User, UserView};
use crate::role_store::RoleStore;
use crate::text::{chars_vec, string_from_chars};
use crate::user_store::UserStore;

verus! {

/// A durable location's contents: `None` when the location does not
/// exist, `Some(text)` when it holds `text`. The process edge reads the
/// real location into this value and writes it back after a change.
pub struct Datafile {
    pub content: Option<String>,
}

/// The location holds exactly the serialized user document of this store.
pub open spec fn file_holds_users(f: Datafile, s: UserStore) -> bool {
    f.content is Some && f.content->0@ == spec_ser_users(s.entries_seq())
}

/// The location holds exactly the serialized role document of this store.
pub open spec fn file_holds_roles(f: Datafile, s: RoleStore) -> bool {
    f.content is Some && f.content->0@ == spec_ser_roles(s.entries_seq())
}

/// The seed user dataset: one user referencing the seed role identifier.
pub open spec fn spec_default_users() -> Seq<(Seq<char>, UserView)> {
    seq![
        (
            "user-1"@,
            UserView {
                uuid: "user-1"@,
                full_name: "Alice Admin"@,
                is_blocked: false,
                roles: seq!["admin"@],
            },
        ),
    ]
}

/// The seed role dataset. The second seed role stands under the key
/// `users` while its own identifier field says `user`; the seed data is
/// kept exactly as it stands, mismatch included.
pub open spec fn spec_default_roles() -> Seq<(Seq<char>, RoleView)> {
    seq![
        (
            "admin"@,
            RoleView {
                uuid: "admin"@,
                name: "Admin"@,
                description: "Administrator role with full access."@,
            },
        ),
        (
            "users"@,
            RoleView { uuid: "user"@, name: "User"@, description: "User role with base access."@ },
        ),
    ]
}

/// The seed user store.
pub fn default_users() -> (s: UserStore)
    ensures
        s.wf(),
        s.entries_seq() == spec_default_users(),
        s@ == map_of(spec_default_users()),
{
    let u = User {
        uuid: String::from_str("user-1"),
        full_name: String::from_str("Alice Admin"),
        is_blocked: false,
        roles: {
            let mut rs: Vec<String> = Vec::new();
            rs.push(String::from_str("admin"));
            rs
        },
    };
    let mut entries: Vec<(String, User)> = Vec::new();
    entries.push((String::from_str("user-1"), u));
    let s = UserStore { entries };
    proof {
        assert(s.entries_seq()[0].1.roles =~= seq!["admin"@]);
        assert(s.entries_seq() =~= spec_default_users());
        assert(s.wf());
    }
    s
}

/// The seed role store.
pub fn default_roles() -> (s: RoleStore)
    ensures
        s.wf(),
        s.entries_seq() == spec_default_roles(),
        s@ == map_of(spec_default_roles()),
{
    let admin = Role {
        uuid: String::from_str("admin"),
        name: String::from_str("Admin"),
        description: String::from_str("Administrator role with full access."),
    };
    let user = Role {
        uuid: String::from_str("user"),
        name: String::from_str("User"),
        description: String::from_str("User role with base access."),
    };
    let mut entries: Vec<(String, Role)> = Vec::new();
    entries.push((String::from_str("admin"), admin));
    entries.push((String::from_str("users"), user));
    let s = RoleStore { entries };
    proof {
        assert(s.entries_seq() =~= spec_default_roles());
        reveal_strlit("admin");
        reveal_strlit("users");
        assert(("admin"@)[0] == 'a');
        assert(("users"@)[0] == 'u');
        assert("admin"@ != "users"@);
        assert(s.wf());
    }
    s
}

/// Serializes the full user mapping and overwrites the location with it.
pub fn save_users(file: &mut Datafile, s: &UserStore)
    ensures
        file_holds_users(*final(file), *s),
{
    let text = ser_users_text(&s.entries);
    file.content = Some(string_from_chars(&text));
}

/// Serializes the full role mapping and overwrites the location with it.
pub fn save_roles(file: &mut Datafile, s: &RoleStore)
    ensures
        file_holds_roles(*final(file), *s),
{
    let text = ser_roles_text(&s.entries);
    file.content = Some(string_from_chars(&text));
}

/// Loads the user mapping from the location. A missing location or
/// content that does not parse never fails the caller: the seed dataset
/// is taken instead and written back to the location at once.
#[verifier::loop_isolation(false)]
pub fn load_users(file: &mut Datafile) -> (s: UserStore)
    ensures
        s.wf(),
        match old(file).content {
            Some(c) => match parse_users_doc(c@) {
                Some(es) => s@ == map_of(es) && *final(file) == *old(file),
                None => s.entries_seq() == spec_default_users() && file_holds_users(
                    *final(file),
                    s,
                ),
            },
            None => s.entries_seq() == spec_default_users() && file_holds_users(*final(file), s),
        },
{
    let parsed: Option<Vec<(String, User)>> = match &file.content {
        Some(c) => {
            let cv = chars_vec(c.as_str());
            parse_users_doc_exec(&cv)
        },
        None => None,
    };
    match parsed {
        Some(v) => {
            let ghost es = entries_view(v@);
            let mut s = UserStore::new();
            let mut i: usize = 0;
            while i < v.len()
                invariant
                    i <= v.len(),
                    s.wf(),
                    s@ == map_of(es.take(i as int)),
                decreases v.len() - i,
            {
                s.upsert(v[i].0.clone(), v[i].1.clone());
                proof {
                    assert(es.take(i as int + 1).drop_last() =~= es.take(i as int));
                    assert(es.take(i as int + 1).last() == (v@[i as int].0@, v@[i as int].1@));
                    assert(s@ == map_of(es.take(i as int + 1)));
                }
                i = i + 1;
            }
            proof {
                assert(es.take(v@.len() as int) =~= es);
            }
            s
        },
        None => {
            let s = default_users();
            save_users(file, &s);
            s
        },
    }
}

/// Loads the role mapping from the location, healing to the seed dataset
/// exactly as the user loader does.
#[verifier::loop_isolation(false)]
pub fn load_roles(file: &mut Datafile) -> (s: RoleStore)
    ensures
        s.wf(),
        match old(file).content {
            Some(c) => match parse_roles_doc(c@) {
                Some(es) => s@ == map_of(es) && *final(file) == *old(file),
                None => s.entries_seq() == spec_default_roles() && file_holds_roles(
                    *final(file),
                    s,
                ),
            },
            None => s.entries_seq() == spec_default_roles() && file_holds_roles(*final(file), s),
        },
{
    let parsed: Option<Vec<(String, Role)>> = match &file.content {
        Some(c) => {
            let cv = chars_vec(c.as_str());
            parse_roles_doc_exec(&cv)
        },
        None => None,
    };
    match parsed {
        Some(v) => {
            let ghost es = entries_view(v@);
            let mut s = RoleStore::new();
            let mut i: usize = 0;
            while i < v.len()
                invariant
                    i <= v.len(),
                    s.wf(),
                    s@ == map_of(es.take(i as int)),
                decreases v.len() - i,
            {
                s.upsert(v[i].0.clone(), v[i].1.clone());
                proof {
                    assert(es.take(i as int + 1).drop_last() =~= es.take(i as int));
                    assert(es.take(i as int + 1).last() == (v@[i as int].0@, v@[i as int].1@));
                    assert(s@ == map_of(es.take(i as int + 1)));
                }
                i = i + 1;
            }
            proof {
                assert(es.take(v@.len() as int) =~= es);
            }
            s
        },
        None => {
            let s = default_roles();
            save_roles(file, &s);
            s
        },
    }
}

/// The round trip: the document that `save_users` writes for a store
/// parses back to exactly the store's entries, so a `load_users` from the
/// same location yields an equal mapping.
pub proof fn lemma_save_load_users(s: UserStore)
    ensures
        parse_users_doc(spec_ser_users(s.entries_seq())) == Some(s.entries_seq()),
{
    lemma_users_round_trip(s.entries_seq());
}

/// The round trip for roles.
pub proof fn lemma_save_load_roles(s: RoleStore)
    ensures
        parse_roles_doc(spec_ser_roles(s.entries_seq())) == Some(s.entries_seq()),
{
    lemma_roles_round_trip(s.entries_seq());
}

} // verus!
