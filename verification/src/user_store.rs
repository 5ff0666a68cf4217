//! The user store: the authoritative in-memory mapping from identifier to
//! user record for one process, together with its query operations.

use vstd::prelude::*;
use vstd::pervasive::VecAdditionalExecFns;

use crate::kvmap::{
    entries_view, lemma_filter_all, lemma_filter_take_step, lemma_map_of_contains,
    lemma_map_of_index, lemma_map_of_push, lemma_map_of_remove, lemma_map_of_update, map_of,
    seq_has_key, unique_keys,
};
use crate::models::{
    clone_string_vec, spec_apply_user_update, spec_user_from_create, CreateUserDTO, UpdateUserDTO,
    User, UserQuery, UserQueryView, UserView,
};
use crate::text::{lower_of, lowercase, contains_str, spec_contains};

verus! {

/// A user record satisfies a query when each present filter key matches:
/// the identifier field exactly, the full name by case-insensitive
/// substring containment.
pub open spec fn spec_user_matches(u: UserView, q: UserQueryView) -> bool {
    (match q.uuid {
        Some(id) => u.uuid == id,
        None => true,
    }) && (match q.full_name {
        Some(n) => spec_contains(lower_of(u.full_name), lower_of(n)),
        None => true,
    })
}

/// The in-memory user mapping; the single source of truth for users while
/// the process runs. Its view is the finite map from identifier to record.
pub struct UserStore {
    pub entries: Vec<(String, User)>,
}

impl View for UserStore {
    type V = Map<Seq<char>, UserView>;

    open spec fn view(&self) -> Map<Seq<char>, UserView> {
        map_of(self.entries_seq())
    }
}

impl UserStore {
    /// The entry sequence, keys and records taken to their views.
    pub open spec fn entries_seq(&self) -> Seq<(Seq<char>, UserView)> {
        entries_view(self.entries@)
    }

    /// Entry keys are pairwise distinct.
    pub open spec fn wf(&self) -> bool {
        unique_keys(self.entries_seq())
    }

    /// The stored records, in entry order.
    pub open spec fn values(&self) -> Seq<UserView> {
        Seq::new(self.entries_seq().len(), |i: int| self.entries_seq()[i].1)
    }

    /// An empty store.
    pub fn new() -> (s: Self)
        ensures
            s.wf(),
            s@ == Map::<Seq<char>, UserView>::empty(),
            s.values() == Seq::<UserView>::empty(),
    {
        let s = UserStore { entries: Vec::new() };
        proof {
            assert(s.entries_seq() =~= Seq::<(Seq<char>, UserView)>::empty());
            assert(s.values() =~= Seq::<UserView>::empty());
        }
        s
    }

    /// The index of the entry stored under this identifier, if any.
    fn find_index(&self, id: &String) -> (r: Option<usize>)
        ensures
            match r {
                Some(i) => i < self.entries_seq().len() && self.entries_seq()[i as int].0 == id@,
                None => !seq_has_key(self.entries_seq(), id@),
            },
    {
        let mut i: usize = 0;
        while i < self.entries.len()
            invariant
                i <= self.entries@.len(),
                forall|j: int| 0 <= j < i ==> (#[trigger] self.entries_seq()[j]).0 != id@,
            decreases self.entries@.len() - i,
        {
            if self.entries[i].0 == *id {
                return Some(i);
            }
            i = i + 1;
        }
        proof {
            if seq_has_key(self.entries_seq(), id@) {
                let j = choose|j: int|
                    0 <= j < self.entries_seq().len() && (#[trigger] self.entries_seq()[j]).0
                        == id@;
            }
        }
        None
    }

    /// Exact-match lookup by identifier: the stored record, or nothing
    /// exactly when the identifier is absent.
    pub fn get(&self, id: &String) -> (r: Option<User>)
        requires
            self.wf(),
        ensures
            match r {
                Some(u) => self@.contains_key(id@) && u@ == self@[id@],
                None => !self@.contains_key(id@),
            },
    {
        match self.find_index(id) {
            Some(i) => {
                proof {
                    lemma_map_of_index(self.entries_seq(), i as int);
                }
                Some(self.entries[i].1.clone())
            },
            None => {
                proof {
                    lemma_map_of_contains(self.entries_seq(), id@);
                }
                None
            },
        }
    }

    /// Every stored record, in entry order.
    #[verifier::loop_isolation(false)]
    pub fn list(&self) -> (r: Vec<User>)
        ensures
            r.deep_view() == self.values(),
    {
        let mut r: Vec<User> = Vec::new();
        let mut i: usize = 0;
        while i < self.entries.len()
            invariant
                i <= self.entries@.len(),
                r.deep_view() =~= self.values().take(i as int),
            decreases self.entries@.len() - i,
        {
            let ghost prev = r.deep_view();
            r.push(self.entries[i].1.clone());
            proof {
                assert forall|k: int| 0 <= k < r@.len() implies r.deep_view()[k]
                    == self.values().take(i as int + 1)[k] by {
                    if k < i as int {
                        assert(r.deep_view()[k] == prev[k]);
                    } else {
                        assert(r.deep_view()[k] == r@[k].deep_view());
                    }
                }
                assert(r.deep_view() =~= self.values().take(i as int + 1));
            }
            i = i + 1;
        }
        proof {
            assert(self.values().take(self.entries@.len() as int) =~= self.values());
        }
        r
    }

    /// The records satisfying the query, in entry order; every record when
    /// the query has no keys, the empty vector when none matches.
    #[verifier::loop_isolation(false)]
    pub fn search(&self, q: &UserQuery) -> (r: Vec<User>)
        ensures
            r.deep_view() == self.values().filter(|u: UserView| spec_user_matches(u, q@)),
    {
        let ghost pred = |u: UserView| spec_user_matches(u, q@);
        let mut r: Vec<User> = Vec::new();
        let mut i: usize = 0;
        while i < self.entries.len()
            invariant
                i <= self.entries@.len(),
                r.deep_view() =~= self.values().take(i as int).filter(pred),
            decreases self.entries@.len() - i,
        {
            let u = &self.entries[i].1;
            let uuid_match = match &q.uuid {
                Some(id) => u.uuid == *id,
                None => true,
            };
            let name_match = match &q.full_name {
                Some(n) => contains_str(lowercase(u.full_name.as_str()).as_str(),
                    lowercase(n.as_str()).as_str()),
                None => true,
            };
            proof {
                assert(self.values()[i as int] == u@);
                match q.uuid {
                    Some(ref id) => {
                        assert(q@.uuid == Some(id@));
                        assert(uuid_match == (u@.uuid == id@));
                    },
                    None => {
                        assert(q@.uuid is None);
                        assert(uuid_match);
                    },
                }
                match q.full_name {
                    Some(ref n) => {
                        assert(q@.full_name == Some(n@));
                        assert(name_match == spec_contains(
                            lower_of(u@.full_name),
                            lower_of(n@),
                        ));
                    },
                    None => {
                        assert(q@.full_name is None);
                        assert(name_match);
                    },
                }
                assert((uuid_match && name_match) == spec_user_matches(u@, q@));
                assert((uuid_match && name_match) == pred(u@));
                lemma_filter_take_step(self.values(), pred, i as int);
            }
            let ghost prev = r.deep_view();
            let keep = uuid_match && name_match;
            if keep {
                r.push(u.clone());
            }
            proof {
                if keep {
                    assert(r.deep_view() =~= prev.push(u@));
                }
                assert(r.deep_view() =~= self.values().take(i as int + 1).filter(pred));
            }
            i = i + 1;
        }
        proof {
            assert(self.values().take(self.entries@.len() as int) =~= self.values());
        }
        r
    }

    /// Inserts a record built from the request under the given identifier,
    /// and returns it as confirmation; refuses exactly when the identifier
    /// is already taken, leaving the store unchanged.
    pub fn create_with_id(&mut self, id: String, dto: &CreateUserDTO) -> (r: Option<User>)
        requires
            old(self).wf(),
        ensures
            final(self).wf(),
            match r {
                Some(u) => {
                    &&& !old(self)@.contains_key(id@)
                    &&& u@ == spec_user_from_create(id@, dto@)
                    &&& final(self)@ == old(self)@.insert(id@, u@)
                    &&& final(self).values() == old(self).values().push(u@)
                },
                None => old(self)@.contains_key(id@) && *final(self) == *old(self),
            },
    {
        proof {
            lemma_map_of_contains(self.entries_seq(), id@);
        }
        match self.find_index(&id) {
            Some(_) => None,
            None => {
                let u = User {
                    uuid: id.clone(),
                    full_name: dto.full_name.clone(),
                    is_blocked: dto.is_blocked,
                    roles: clone_string_vec(&dto.roles),
                };
                let ret = u.clone();
                let ghost old_seq = self.entries_seq();
                let ghost old_values = self.values();
                let ghost idv = id@;
                let ghost uv = u@;
                self.entries.push((id, u));
                proof {
                    assert(self.entries_seq() =~= old_seq.push((idv, uv)));
                    lemma_map_of_push(old_seq, idv, uv);
                    assert(forall|a: int|
                        0 <= a < old_seq.len() ==> (#[trigger] old_seq[a]).0 != idv);
                    assert(self.wf());
                    assert(self.values() =~= old_values.push(uv));
                }
                Some(ret)
            },
        }
    }

    /// Applies exactly the fields present in the request to the record
    /// stored under the identifier and returns the updated record; absent
    /// fields keep their stored values, and the identifier itself never
    /// changes. Nothing is returned, and nothing changes, exactly when the
    /// identifier is absent.
    pub fn update(&mut self, id: &String, dto: &UpdateUserDTO) -> (r: Option<User>)
        requires
            old(self).wf(),
        ensures
            final(self).wf(),
            match r {
                Some(u) => {
                    &&& old(self)@.contains_key(id@)
                    &&& u@ == spec_apply_user_update(old(self)@[id@], dto@)
                    &&& final(self)@ == old(self)@.insert(id@, u@)
                    &&& final(self).values().len() == old(self).values().len()
                },
                None => !old(self)@.contains_key(id@) && *final(self) == *old(self),
            },
    {
        proof {
            lemma_map_of_contains(self.entries_seq(), id@);
        }
        match self.find_index(id) {
            Some(i) => {
                proof {
                    lemma_map_of_index(self.entries_seq(), i as int);
                }
                let key = self.entries[i].0.clone();
                let stored = &self.entries[i].1;
                let new_u = User {
                    uuid: stored.uuid.clone(),
                    full_name: match &dto.full_name {
                        Some(n) => n.clone(),
                        None => stored.full_name.clone(),
                    },
                    is_blocked: match dto.is_blocked {
                        Some(b) => b,
                        None => stored.is_blocked,
                    },
                    roles: match &dto.roles {
                        Some(rs) => clone_string_vec(rs),
                        None => clone_string_vec(&stored.roles),
                    },
                };
                let ret = new_u.clone();
                let ghost old_seq = self.entries_seq();
                let ghost uv = new_u@;
                proof {
                    assert(uv == spec_apply_user_update(old_seq[i as int].1, dto@)) by {
                        assert(uv =~= spec_apply_user_update(old_seq[i as int].1, dto@));
                    }
                }
                self.entries.set(i, (key, new_u));
                proof {
                    assert(self.entries_seq() =~= old_seq.update(i as int, (id@, uv)));
                    assert(old_seq.update(i as int, (id@, uv))
                        =~= old_seq.update(i as int, (old_seq[i as int].0, uv)));
                    lemma_map_of_update(old_seq, i as int, uv);
                    assert(unique_keys(self.entries_seq())) by {
                        assert(forall|a: int|
                            0 <= a < old_seq.len() ==> (#[trigger] self.entries_seq()[a]).0
                                == old_seq[a].0);
                    }
                }
                Some(ret)
            },
            None => None,
        }
    }

    /// Puts a record under a key, replacing any record already there: the
    /// loader's way of rebuilding a store entry by entry.
    pub fn upsert(&mut self, id: String, v: User)
        requires
            old(self).wf(),
        ensures
            final(self).wf(),
            final(self)@ == old(self)@.insert(id@, v@),
    {
        let ghost idv = id@;
        let ghost vv = v@;
        match self.find_index(&id) {
            Some(i) => {
                let ghost old_seq = self.entries_seq();
                self.entries.set(i, (id, v));
                proof {
                    assert(self.entries_seq() =~= old_seq.update(
                        i as int,
                        (old_seq[i as int].0, vv),
                    ));
                    lemma_map_of_update(old_seq, i as int, vv);
                    assert(unique_keys(self.entries_seq())) by {
                        assert(forall|a: int|
                            0 <= a < old_seq.len() ==> (#[trigger] self.entries_seq()[a]).0
                                == old_seq[a].0);
                    }
                }
            },
            None => {
                let ghost old_seq = self.entries_seq();
                self.entries.push((id, v));
                proof {
                    assert(self.entries_seq() =~= old_seq.push((idv, vv)));
                    lemma_map_of_push(old_seq, idv, vv);
                    assert(forall|a: int|
                        0 <= a < old_seq.len() ==> (#[trigger] old_seq[a]).0 != idv);
                    assert(self.wf());
                }
            },
        }
    }

    /// Removes the record stored under the identifier; reports whether one
    /// was there. Nothing changes exactly when the identifier is absent.
    pub fn delete(&mut self, id: &String) -> (r: bool)
        requires
            old(self).wf(),
        ensures
            final(self).wf(),
            r == old(self)@.contains_key(id@),
            r ==> final(self)@ == old(self)@.remove(id@),
            !r ==> *final(self) == *old(self),
    {
        proof {
            lemma_map_of_contains(self.entries_seq(), id@);
        }
        match self.find_index(id) {
            Some(i) => {
                let ghost old_seq = self.entries_seq();
                self.entries.remove(i);
                proof {
                    assert(self.entries_seq() =~= old_seq.remove(i as int));
                    lemma_map_of_remove(old_seq, i as int);
                    assert(unique_keys(self.entries_seq())) by {
                        assert(forall|a: int|
                            0 <= a < i ==> (#[trigger] self.entries_seq()[a]).0 == old_seq[a].0);
                        assert(forall|a: int|
                            i <= a < self.entries_seq().len()
                                ==> (#[trigger] self.entries_seq()[a]).0 == old_seq[a + 1].0);
                    }
                }
                true
            },
            None => false,
        }
    }
}

/// Searching is insensitive to the case of the name filter: two name
/// filters with the same case folding accept exactly the same records.
pub proof fn lemma_user_search_case_insensitive()
    ensures
        forall|u: UserView, idf: Option<Seq<char>>, n1: Seq<char>, n2: Seq<char>|
            lower_of(n1) == lower_of(n2) ==> #[trigger] spec_user_matches(
                u,
                (UserQueryView { uuid: idf, full_name: Some(n1) }),
            ) == #[trigger] spec_user_matches(
                u,
                (UserQueryView { uuid: idf, full_name: Some(n2) }),
            ),
{
}

/// A search with no filter keys returns exactly the stored records, in
/// the same order as a listing.
pub proof fn lemma_user_search_no_filter_is_list(s: UserStore)
    ensures
        s.values().filter(
            |u: UserView| spec_user_matches(u, (UserQueryView { uuid: None, full_name: None })),
        ) == s.values(),
{
    lemma_filter_all(
        s.values(),
        |u: UserView| spec_user_matches(u, (UserQueryView { uuid: None, full_name: None })),
    );
}

} // verus!
