//! The shared credential store: one `UserStore` behind a verified
//! reader/writer lock, shared by every connection for the lifetime of the
//! process. Any number of readers may authenticate concurrently; a mutation
//! holds the lock exclusively, so no reader ever observes a half-written
//! record, and every reader works against one consistent snapshot.

use vstd::prelude::*;
use vstd::rwlock::{RwLock, RwLockPredicate};

use crate::auth::{login, spec_login};
use crate::login_action::LoginAction;
use crate::protocol::{connection_step, spec_connection_step, ConnectionStep};
use crate::store::{store_from_records, UserStore};
use crate::text::normalized_username;
use crate::user::{User, UserV};

verus! {

/// A snapshot map that lists a sequence of records: each record is the one
/// the map holds under its normalized username.
pub open spec fn snapshot_lists(m: Map<Seq<char>, UserV>, s: Seq<UserV>) -> bool {
    forall|i: int|
        0 <= i < s.len() ==> m.contains_key(normalized_username(#[trigger] s[i].username))
            && m[normalized_username(s[i].username)] == s[i]
}

/// What may sit in the lock: only a well-formed store.
pub struct StorePred {}

impl RwLockPredicate<UserStore> for StorePred {
    open spec fn inv(self, v: UserStore) -> bool {
        v.wf()
    }
}

/// The process-wide credential store. Every operation here takes the lock:
/// lookups and connection steps as readers, mutations exclusively.
pub struct SharedStore {
    lock: RwLock<UserStore, StorePred>,
}

impl SharedStore {
    /// Shares a store. Every store ever placed in the lock is well-formed.
    pub fn new(store: UserStore) -> (s: Self)
        requires
            store.wf(),
    {
        SharedStore { lock: RwLock::new(store, Ghost(StorePred {  })) }
    }

    /// Authenticates one attempt against a consistent snapshot of the store:
    /// the result is the login decision on one well-formed store value, never
    /// on a mixture of two.
    pub fn authenticate(&self, username: &str, password: &str) -> (r: Option<LoginAction>)
        ensures
            exists|m: Map<Seq<char>, UserV>|
                r.deep_view() == spec_login(m, username@, password@),
    {
        let handle = self.lock.acquire_read();
        let store = handle.borrow();
        let r = login(store, username, password);
        proof {
            assert(r.deep_view() == spec_login(store@, username@, password@));
        }
        handle.release_read();
        r
    }

    /// Runs one connection step against a consistent snapshot of the store.
    pub fn handle_frame(&self, input: &[u8]) -> (step: ConnectionStep)
        ensures
            exists|m: Map<Seq<char>, UserV>|
                step.deep_view() == spec_connection_step(m, input@),
    {
        let handle = self.lock.acquire_read();
        let store = handle.borrow();
        let step = connection_step(store, input);
        proof {
            assert(step.deep_view() == spec_connection_step(store@, input@));
        }
        handle.release_read();
        step
    }

    /// Adds a user under exclusive access; reports whether the username was
    /// free at the moment of the write.
    pub fn add_user(
        &self,
        username: &str,
        password: &str,
        limited: Option<bool>,
        admin: Option<bool>,
    ) -> (added: bool)
        ensures
            exists|m: Map<Seq<char>, UserV>|
                added == !m.contains_key(normalized_username(username@)),
    {
        let (mut store, write_handle) = self.lock.acquire_write();
        let ghost m0 = store@;
        let added = store.add_user(username, password, limited, admin);
        write_handle.release_write(store);
        proof {
            assert(added == !m0.contains_key(normalized_username(username@)));
        }
        added
    }

    /// Deletes a user under exclusive access; reports whether the username
    /// was present at the moment of the write.
    pub fn delete_user(&self, username: &str) -> (removed: bool)
        ensures
            exists|m: Map<Seq<char>, UserV>|
                removed == m.contains_key(normalized_username(username@)),
    {
        let (mut store, write_handle) = self.lock.acquire_write();
        let ghost m0 = store@;
        let removed = store.delete(username);
        write_handle.release_write(store);
        proof {
            assert(removed == m0.contains_key(normalized_username(username@)));
        }
        removed
    }

    /// Replaces a user's password digest under exclusive access; reports
    /// whether the username was present at the moment of the write.
    pub fn change_password(&self, username: &str, new_password: &str) -> (changed: bool)
        ensures
            exists|m: Map<Seq<char>, UserV>|
                changed == m.contains_key(normalized_username(username@)),
    {
        let (mut store, write_handle) = self.lock.acquire_write();
        let ghost m0 = store@;
        let changed = store.change_password(username, new_password);
        write_handle.release_write(store);
        proof {
            assert(changed == m0.contains_key(normalized_username(username@)));
        }
        changed
    }

    /// Builds a shared store from loose records, as loaded from persistence,
    /// by wrapping `store_from_records`: the store placed in the lock holds
    /// exactly the map of the given records, and callers need not establish
    /// anything. Nothing more is statable of the result here, since the lock
    /// exposes no view of its contents.
    pub fn from_records(records: Vec<User>) -> (s: SharedStore) {
        SharedStore::new(store_from_records(records))
    }

    /// Copies the records of one consistent snapshot, for listing. Every
    /// returned record is the one that snapshot holds under its normalized
    /// username.
    pub fn list(&self) -> (users: Vec<User>)
        ensures
            exists|m: Map<Seq<char>, UserV>| #[trigger] snapshot_lists(m, users.deep_view()),
    {
        let handle = self.lock.acquire_read();
        let store = handle.borrow();
        let records = store.records();
        let n = records.len();
        let mut users: Vec<User> = Vec::new();
        let mut i: usize = 0;
        while i < n
            invariant
                n == records.deep_view().len(),
                records.deep_view() == store.rep(),
                0 <= i <= n,
                users.deep_view() =~= store.rep().subrange(0, i as int),
            decreases n - i,
        {
            let u = vstd::slice::slice_index_get(records.as_slice(), i).clone();
            proof {
                assert(u@ == store.rep()[i as int]);
            }
            let ghost prev = users.deep_view();
            users.push(u);
            proof {
                assert(users.deep_view().len() == prev.len() + 1);
                assert(forall|j: int|
                    0 <= j < prev.len() ==> #[trigger] users.deep_view()[j] == prev[j]);
                assert(users.deep_view()[prev.len() as int] == u@);
                assert(users.deep_view() =~= store.rep().subrange(0, i + 1));
            }
            i = i + 1;
        }
        proof {
            assert(users.deep_view() =~= store.rep());
            assert forall|j: int| 0 <= j < users.deep_view().len() implies store@.contains_key(
                normalized_username(#[trigger] users.deep_view()[j].username),
            ) && store@[normalized_username(users.deep_view()[j].username)]
                == users.deep_view()[j] by {
                store.lemma_record_in_map(j);
            }
            assert(snapshot_lists(store@, users.deep_view()));
        }
        handle.release_read();
        users
    }
}

} // verus!
