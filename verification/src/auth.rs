//! The login authenticator: a pure decision from (store, username, password)
//! to an optional outcome. The username is normalized and the password is
//! trimmed and hashed; an unknown username and a wrong password both yield
//! the same empty result, deliberately indistinguishable to the caller.

use vstd::prelude::*;

use crate::hashing::{hash_password, sha256_hex_of};
use crate::login_action::{LoginAction, LoginActionV};
use crate::store::UserStore;
use crate::text::{
    all_space, lemma_normalized_padding, lemma_trimmed_padding, normalized_username, trim,
    trimmed,
};
use crate::user::UserV;

verus! {

/// The login decision: look the normalized username up; if it is absent, or
/// the digest of the trimmed password differs from the stored digest, the
/// result is empty; otherwise it is the stored outcome.
pub open spec fn spec_login(
    m: Map<Seq<char>, UserV>,
    username: Seq<char>,
    password: Seq<char>,
) -> Option<LoginActionV> {
    let k = normalized_username(username);
    if m.contains_key(k) && m[k].password == sha256_hex_of(trimmed(password)) {
        Some(m[k].action)
    } else {
        None
    }
}

/// Authenticates one attempt against the store. No I/O, no side effect; the
/// result is exactly the login decision on the store's current records.
pub fn login(users: &UserStore, username: &str, password: &str) -> (r: Option<LoginAction>)
    requires
        users.wf(),
    ensures
        r.deep_view() == spec_login(users@, username@, password@),
{
    let trimmed_password = trim(password);
    let digest = hash_password(trimmed_password.as_str());
    match users.lookup(username) {
        Some(user) => {
            if user.password == digest {
                Some(user.action)
            } else {
                None
            }
        },
        None => None,
    }
}

/// Unknown usernames are refused: whatever the password, a username whose
/// normalized form is not in the store yields the empty outcome.
pub proof fn lemma_authenticate_unknown(
    m: Map<Seq<char>, UserV>,
    username: Seq<char>,
    password: Seq<char>,
)
    requires
        !m.contains_key(normalized_username(username)),
    ensures
        spec_login(m, username, password) is None,
{
}

/// Wrong passwords are refused, and the refusal is the very value an unknown
/// username yields: the two misses cannot be told apart from the result.
pub proof fn lemma_wrong_password_indistinguishable(
    m: Map<Seq<char>, UserV>,
    username: Seq<char>,
    password: Seq<char>,
    other_username: Seq<char>,
    other_password: Seq<char>,
)
    requires
        m.contains_key(normalized_username(username)),
        m[normalized_username(username)].password != sha256_hex_of(trimmed(password)),
        !m.contains_key(normalized_username(other_username)),
    ensures
        spec_login(m, username, password) is None,
        spec_login(m, username, password) == spec_login(m, other_username, other_password),
{
}

/// The normalization law: a record stored under a username's key is
/// returned for every attempt username with the same normalized form — any
/// letter-case variant or whitespace padding of it, since normalization
/// trims and lower-cases (for padding alone, `lemma_normalized_padding`
/// discharges the hypothesis) — and for every whitespace padding of the
/// password. The password under which the record was created must itself
/// carry no surrounding whitespace, since record creation hashes it exactly
/// as given and authentication trims before hashing.
pub proof fn lemma_authenticate_normalized(
    m: Map<Seq<char>, UserV>,
    username: Seq<char>,
    password: Seq<char>,
    attempt_username: Seq<char>,
    lead: Seq<char>,
    tail: Seq<char>,
)
    requires
        trimmed(password) == password,
        m.contains_key(normalized_username(username)),
        m[normalized_username(username)].password == sha256_hex_of(password),
        normalized_username(attempt_username) == normalized_username(username),
        all_space(lead),
        all_space(tail),
    ensures
        spec_login(m, attempt_username, lead + password + tail) == Some(
            m[normalized_username(username)].action,
        ),
{
    lemma_trimmed_padding(lead, password, tail);
}

/// A corollary in the law's own terms: an attempt username that is the
/// stored one under whitespace padding satisfies the hypothesis above.
pub proof fn lemma_authenticate_padded_username(
    m: Map<Seq<char>, UserV>,
    username: Seq<char>,
    password: Seq<char>,
    ulead: Seq<char>,
    utail: Seq<char>,
    lead: Seq<char>,
    tail: Seq<char>,
)
    requires
        trimmed(password) == password,
        m.contains_key(normalized_username(username)),
        m[normalized_username(username)].password == sha256_hex_of(password),
        all_space(ulead),
        all_space(utail),
        all_space(lead),
        all_space(tail),
    ensures
        spec_login(m, ulead + username + utail, lead + password + tail) == Some(
            m[normalized_username(username)].action,
        ),
{
    lemma_normalized_padding(ulead, username, utail);
    lemma_authenticate_normalized(m, username, password, ulead + username + utail, lead, tail);
}

} // verus!
