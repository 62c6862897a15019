//! The credential store: a mapping from normalized username to credential
//! record. At most one record exists per normalized username; every key is
//! trimmed and lower-cased before storage or lookup, so "Adam", " adam\r\n"
//! and "ADAM" all reach one record.
//!
//! The store is a plain value here; shared concurrent access to one store is
//! provided by `SharedStore`, which guards a `UserStore` behind a verified
//! reader/writer lock.

use vstd::prelude::*;

use crate::denied_reason::{DeniedReason, DeniedReasonV};
use crate::hashing::{hash_password, sha256_hex_of};
use crate::login_action::{LoginAction, LoginActionV};
use crate::role::Role;
use crate::text::{normalize_username, normalized_username};
use crate::user::{User, UserV};

verus! {

/// The records of a store, as a map keyed by normalized username: each
/// record overrides any earlier record with the same key.
pub open spec fn records_as_map(s: Seq<UserV>) -> Map<Seq<char>, UserV>
    decreases s.len(),
{
    if s.len() == 0 {
        Map::empty()
    } else {
        records_as_map(s.drop_last()).insert(normalized_username(s.last().username), s.last())
    }
}

/// No two records share a normalized username.
pub open spec fn distinct_usernames(s: Seq<UserV>) -> bool {
    forall|i: int, j: int|
        0 <= i < j < s.len() ==> normalized_username(#[trigger] s[i].username)
            != normalized_username(#[trigger] s[j].username)
}

proof fn lemma_map_contains(s: Seq<UserV>, k: Seq<char>)
    ensures
        records_as_map(s).contains_key(k) <==> exists|i: int|
            0 <= i < s.len() && normalized_username(#[trigger] s[i].username) == k,
    decreases s.len(),
{
    if s.len() > 0 {
        lemma_map_contains(s.drop_last(), k);
        if normalized_username(s.last().username) == k {
            assert(normalized_username(s[s.len() - 1].username) == k);
        } else if records_as_map(s.drop_last()).contains_key(k) {
            let i = choose|i: int|
                0 <= i < s.drop_last().len() && normalized_username(
                    #[trigger] s.drop_last()[i].username,
                ) == k;
            assert(normalized_username(s[i].username) == k);
        } else if exists|i: int|
            0 <= i < s.len() && normalized_username(#[trigger] s[i].username) == k {
            let i = choose|i: int|
                0 <= i < s.len() && normalized_username(#[trigger] s[i].username) == k;
            assert(normalized_username(s.drop_last()[i].username) == k);
        }
    }
}

proof fn lemma_map_at(s: Seq<UserV>, i: int)
    requires
        distinct_usernames(s),
        0 <= i < s.len(),
    ensures
        records_as_map(s).contains_key(normalized_username(s[i].username)),
        records_as_map(s)[normalized_username(s[i].username)] == s[i],
    decreases s.len(),
{
    if i < s.len() - 1 {
        lemma_map_at(s.drop_last(), i);
        assert(s.drop_last()[i] == s[i]);
    }
}

proof fn lemma_map_remove(s: Seq<UserV>, i: int)
    requires
        distinct_usernames(s),
        0 <= i < s.len(),
    ensures
        records_as_map(s.remove(i)) == records_as_map(s).remove(
            normalized_username(s[i].username),
        ),
    decreases s.len(),
{
    let k = normalized_username(s[i].username);
    if i == s.len() - 1 {
        assert(s.remove(i) =~= s.drop_last());
        lemma_map_contains(s.drop_last(), k);
        assert(forall|j: int|
            0 <= j < s.drop_last().len() ==> normalized_username(
                #[trigger] s.drop_last()[j].username,
            ) != k);
        assert(!records_as_map(s.drop_last()).contains_key(k));
        assert(records_as_map(s.drop_last()).insert(k, s.last()).remove(k) =~= records_as_map(
            s.drop_last(),
        ));
    } else {
        let kl = normalized_username(s.last().username);
        assert(s.remove(i).last() == s.last());
        assert(s.remove(i).drop_last() =~= s.drop_last().remove(i));
        assert(distinct_usernames(s.drop_last())) by {
            assert(forall|a: int| 0 <= a < s.len() - 1 ==> s.drop_last()[a] == s[a]);
        }
        lemma_map_remove(s.drop_last(), i);
        assert(s.drop_last()[i] == s[i]);
        assert(k != kl);
        assert(records_as_map(s.drop_last()).remove(k).insert(kl, s.last()) =~= records_as_map(
            s.drop_last(),
        ).insert(kl, s.last()).remove(k));
    }
}

proof fn lemma_distinct_remove(s: Seq<UserV>, i: int)
    requires
        distinct_usernames(s),
        0 <= i < s.len(),
    ensures
        distinct_usernames(s.remove(i)),
{
    assert(forall|a: int|
        0 <= a < s.remove(i).len() ==> #[trigger] s.remove(i)[a] == (if a < i {
            s[a]
        } else {
            s[a + 1]
        }));
}

proof fn lemma_distinct_push(s: Seq<UserV>, u: UserV)
    requires
        distinct_usernames(s),
        forall|a: int|
            0 <= a < s.len() ==> normalized_username(#[trigger] s[a].username)
                != normalized_username(u.username),
    ensures
        distinct_usernames(s.push(u)),
{
    assert(forall|a: int| 0 <= a < s.len() ==> s.push(u)[a] == s[a]);
    assert(s.push(u)[s.len() as int] == u);
}

proof fn lemma_map_push(s: Seq<UserV>, u: UserV)
    ensures
        records_as_map(s.push(u)) == records_as_map(s).insert(
            normalized_username(u.username),
            u,
        ),
{
    assert(s.push(u).drop_last() =~= s);
    assert(s.push(u).last() == u);
}

/// The credential store. Shared for the lifetime of the process, read by
/// every connection, mutated only through the management operations.
pub struct UserStore {
    users: Vec<User>,
}

impl View for UserStore {
    type V = Map<Seq<char>, UserV>;

    closed spec fn view(&self) -> Map<Seq<char>, UserV> {
        records_as_map(self.users.deep_view())
    }
}

impl UserStore {
    /// The records in storage order.
    pub closed spec fn rep(&self) -> Seq<UserV> {
        self.users.deep_view()
    }

    /// Well-formed: at most one record per normalized username.
    pub closed spec fn wf(&self) -> bool {
        distinct_usernames(self.users.deep_view())
    }

    /// An empty store.
    pub fn new() -> (s: Self)
        ensures
            s.wf(),
            s@ == Map::<Seq<char>, UserV>::empty(),
            s.rep() == Seq::<UserV>::empty(),
    {
        let s = UserStore { users: Vec::new() };
        proof {
            assert(s.users.deep_view() =~= Seq::<UserV>::empty());
        }
        s
    }

    fn find_index(&self, key: &String) -> (r: Option<usize>)
        ensures
            match r {
                Some(i) => 0 <= i < self.rep().len() && normalized_username(
                    self.rep()[i as int].username,
                ) == key@,
                None => forall|i: int|
                    0 <= i < self.rep().len() ==> normalized_username(
                        #[trigger] self.rep()[i].username,
                    ) != key@,
            },
    {
        let n = self.users.len();
        let mut i: usize = 0;
        let mut found: Option<usize> = None;
        while i < n
            invariant
                n == self.rep().len(),
                0 <= i <= n,
                match found {
                    Some(j) => 0 <= j < n && i > j && normalized_username(
                        self.rep()[j as int].username,
                    ) == key@,
                    None => forall|j: int|
                        0 <= j < i ==> normalized_username(#[trigger] self.rep()[j].username)
                            != key@,
                },
            decreases n - i,
        {
            if found.is_none() {
                let nu = normalize_username(self.users[i].username.as_str());
                if nu == *key {
                    found = Some(i);
                }
            }
            i = i + 1;
        }
        found
    }

    /// Looks a username up, returning a copy of its record. The key is
    /// normalized before the lookup; absence is an empty result, never an
    /// error.
    pub fn lookup(&self, username: &str) -> (r: Option<User>)
        requires
            self.wf(),
        ensures
            match r {
                Some(u) => self@.contains_key(normalized_username(username@)) && u@
                    == self@[normalized_username(username@)],
                None => !self@.contains_key(normalized_username(username@)),
            },
    {
        let key = normalize_username(username);
        match self.find_index(&key) {
            Some(i) => {
                proof {
                    lemma_map_at(self.rep(), i as int);
                }
                Some(self.users[i].clone())
            },
            None => {
                proof {
                    lemma_map_contains(self.rep(), key@);
                }
                None
            },
        }
    }

    /// Inserts a record, replacing any record already stored under the same
    /// normalized username.
    pub fn insert(&mut self, user: User)
        requires
            old(self).wf(),
        ensures
            final(self).wf(),
            final(self)@ == old(self)@.insert(normalized_username(user@.username), user@),
    {
        let key = normalize_username(user.username.as_str());
        let ghost k = key@;
        let ghost uv = user@;
        let ghost s0 = self.rep();
        match self.find_index(&key) {
            Some(i) => {
                self.users.remove(i);
                let ghost s1 = self.rep();
                self.users.push(user);
                proof {
                    assert(s1 =~= s0.remove(i as int));
                    lemma_map_remove(s0, i as int);
                    lemma_distinct_remove(s0, i as int);
                    assert(forall|a: int|
                        0 <= a < s1.len() ==> normalized_username(#[trigger] s1[a].username) != k)
                        by {
                        assert(forall|a: int|
                            0 <= a < s1.len() ==> #[trigger] s1[a] == (if a < i as int {
                                s0[a]
                            } else {
                                s0[a + 1]
                            }));
                    }
                    lemma_distinct_push(s1, uv);
                    assert(self.rep() =~= s1.push(uv));
                    lemma_map_push(s1, uv);
                    assert(self@ =~= old(self)@.insert(k, uv));
                }
            },
            None => {
                self.users.push(user);
                proof {
                    assert(self.rep() =~= s0.push(uv));
                    lemma_distinct_push(s0, uv);
                    lemma_map_push(s0, uv);
                }
            },
        }
    }

    /// Deletes the record stored under a username, reporting whether one was
    /// there.
    pub fn delete(&mut self, username: &str) -> (removed: bool)
        requires
            old(self).wf(),
        ensures
            final(self).wf(),
            removed == old(self)@.contains_key(normalized_username(username@)),
            final(self)@ == old(self)@.remove(normalized_username(username@)),
    {
        let key = normalize_username(username);
        let ghost k = key@;
        let ghost s0 = self.rep();
        match self.find_index(&key) {
            Some(i) => {
                proof {
                    lemma_map_at(s0, i as int);
                    lemma_map_remove(s0, i as int);
                    lemma_distinct_remove(s0, i as int);
                }
                self.users.remove(i);
                proof {
                    assert(self.rep() =~= s0.remove(i as int));
                }
                true
            },
            None => {
                proof {
                    lemma_map_contains(s0, k);
                    assert(self@.remove(k) =~= self@);
                }
                false
            },
        }
    }

    /// Replaces the password digest of the record stored under a username,
    /// reporting whether one was there. The username and outcome of the
    /// record are unchanged.
    pub fn change_password(&mut self, username: &str, new_password: &str) -> (changed: bool)
        requires
            old(self).wf(),
        ensures
            final(self).wf(),
            changed == old(self)@.contains_key(normalized_username(username@)),
            changed ==> final(self)@ == old(self)@.insert(
                normalized_username(username@),
                (UserV {
                    password: sha256_hex_of(new_password@),
                    ..old(self)@[normalized_username(username@)]
                }),
            ),
            !changed ==> final(self)@ == old(self)@,
    {
        let key = normalize_username(username);
        let ghost k = key@;
        let ghost s0 = self.rep();
        match self.find_index(&key) {
            Some(i) => {
                proof {
                    lemma_map_at(s0, i as int);
                }
                let old_user = self.users[i].clone();
                let renewed = User {
                    username: old_user.username,
                    password: hash_password(new_password),
                    action: old_user.action,
                };
                proof {
                    assert(normalized_username(renewed@.username) == k);
                }
                self.insert(renewed);
                true
            },
            None => {
                proof {
                    lemma_map_contains(s0, k);
                }
                false
            },
        }
    }

    /// Adds a new user, refusing a username whose normalized form is already
    /// taken. The role is `Limited` when the limited marker is given,
    /// otherwise `Admin` when the admin marker is given, otherwise `User`.
    pub fn add_user(
        &mut self,
        username: &str,
        password: &str,
        limited: Option<bool>,
        admin: Option<bool>,
    ) -> (added: bool)
        requires
            old(self).wf(),
        ensures
            final(self).wf(),
            added == !old(self)@.contains_key(normalized_username(username@)),
            added ==> final(self)@ == ({
                let record = UserV {
                    username: normalized_username(username@),
                    password: sha256_hex_of(password@),
                    action: LoginActionV::Accept(chosen_role(limited, admin)),
                };
                old(self)@.insert(normalized_username(record.username), record)
            }),
            !added ==> final(self)@ == old(self)@,
    {
        let key = normalize_username(username);
        let ghost s0 = self.rep();
        match self.find_index(&key) {
            Some(i) => {
                proof {
                    lemma_map_at(s0, i as int);
                }
                false
            },
            None => {
                proof {
                    lemma_map_contains(s0, key@);
                }
                let role = if limited.is_some() {
                    Role::Limited
                } else if admin.is_some() {
                    Role::Admin
                } else {
                    Role::User
                };
                let user = User::new(username, password, LoginAction::Accept(role));
                self.insert(user);
                true
            },
        }
    }

    /// The stored records, in storage order; every one of them is reachable
    /// in the map under its normalized username (see `lemma_record_in_map`).
    pub fn records(&self) -> (r: &Vec<User>)
        ensures
            r.deep_view() == self.rep(),
    {
        &self.users
    }

    /// Every stored record of a well-formed store is the one the map holds
    /// under its normalized username.
    pub proof fn lemma_record_in_map(&self, i: int)
        requires
            self.wf(),
            0 <= i < self.rep().len(),
        ensures
            self@.contains_key(normalized_username(self.rep()[i].username)),
            self@[normalized_username(self.rep()[i].username)] == self.rep()[i],
    {
        lemma_map_at(self.rep(), i);
    }
}

/// The role picked by the management surface when adding a user: the limited
/// marker wins over the admin marker, and the default is an ordinary user.
pub open spec fn chosen_role(limited: Option<bool>, admin: Option<bool>) -> Role {
    if limited is Some {
        Role::Limited
    } else if admin is Some {
        Role::Admin
    } else {
        Role::User
    }
}

/// Builds a store from loose records, as loaded from persistence: a later
/// record replaces an earlier one stored under the same normalized
/// username. The result holds exactly the map of the given records.
pub fn store_from_records(records: Vec<User>) -> (s: UserStore)
    ensures
        s.wf(),
        s@ == records_as_map(records.deep_view()),
{
    let mut s = UserStore::new();
    let n = records.len();
    let mut i: usize = 0;
    while i < n
        invariant
            n == records.deep_view().len(),
            0 <= i <= n,
            s.wf(),
            s@ == records_as_map(records.deep_view().subrange(0, i as int)),
        decreases n - i,
    {
        let u = vstd::slice::slice_index_get(records.as_slice(), i).clone();
        proof {
            assert(u@ == records.deep_view()[i as int]);
        }
        s.insert(u);
        proof {
            let prefix = records.deep_view().subrange(0, i + 1);
            assert(prefix.drop_last() =~= records.deep_view().subrange(0, i as int));
            assert(prefix.last() == records.deep_view()[i as int]);
        }
        i = i + 1;
    }
    proof {
        assert(records.deep_view().subrange(0, n as int) =~= records.deep_view());
    }
    s
}

/// The built-in demonstration store: four users, every password "password",
/// with one accepted admin, one accepted user, one expired password and one
/// locked account.
pub fn get_users_old() -> (s: UserStore)
    ensures
        s.wf(),
        s@ == ({
            let adam = UserV {
                username: normalized_username("adam"@),
                password: sha256_hex_of("password"@),
                action: LoginActionV::Accept(Role::Admin),
            };
            let mike = UserV {
                username: normalized_username("mike"@),
                password: sha256_hex_of("password"@),
                action: LoginActionV::Accept(Role::User),
            };
            let jake = UserV {
                username: normalized_username("jake"@),
                password: sha256_hex_of("password"@),
                action: LoginActionV::Denied(DeniedReasonV::PasswordExpired),
            };
            let kevin = UserV {
                username: normalized_username("kevin"@),
                password: sha256_hex_of("password"@),
                action: LoginActionV::Denied(
                    DeniedReasonV::AccountLocked { reason: "Contact HR!"@ },
                ),
            };
            Map::<Seq<char>, UserV>::empty().insert(
                normalized_username(adam.username),
                adam,
            ).insert(normalized_username(mike.username), mike).insert(
                normalized_username(jake.username),
                jake,
            ).insert(normalized_username(kevin.username), kevin)
        }),
{
    let mut s = UserStore::new();
    s.insert(User::new("adam", "password", LoginAction::Accept(Role::Admin)));
    s.insert(User::new("mike", "password", LoginAction::Accept(Role::User)));
    s.insert(
        User::new(
            "jake",
            "password",
            LoginAction::Denied(DeniedReason::PasswordExpired),
        ),
    );
    s.insert(
        User::new(
            "kevin",
            "password",
            LoginAction::Denied(
                DeniedReason::AccountLocked {
                    reason: "Contact HR!".to_owned(),
                },
            ),
        ),
    );
    s
}

} // verus!
