//! A credential record: the normalized username that serves as its unique
//! key, the digest of the password, and the outcome assigned to a
//! successful identity match.

use vstd::prelude::*;

use crate::hashing::{hash_password, sha256_hex_of};
use crate::login_action::{LoginAction, LoginActionV};
use crate::text::{normalize_username, normalized_username};

verus! {

#[derive(Debug)]
pub struct User {
    pub username: String,
    pub password: String,
    pub action: LoginAction,
}

/// The mathematical shape of a credential record.
pub struct UserV {
    pub username: Seq<char>,
    pub password: Seq<char>,
    pub action: LoginActionV,
}

impl View for User {
    type V = UserV;

    open spec fn view(&self) -> UserV {
        UserV { username: self.username@, password: self.password@, action: self.action@ }
    }
}

impl DeepView for User {
    type V = UserV;

    open spec fn deep_view(&self) -> UserV {
        self.view()
    }
}

impl Clone for User {
    fn clone(&self) -> (r: Self)
        ensures
            r@ == self@,
    {
        User {
            username: self.username.clone(),
            password: self.password.clone(),
            action: self.action.clone(),
        }
    }
}

impl User {
    /// Builds a record for the given username, hashing the cleartext
    /// password; the username is stored in its normalized form, the
    /// password never in clear.
    pub fn new(username: &str, password: &str, action: LoginAction) -> (r: Self)
        ensures
            r@ == (UserV {
                username: normalized_username(username@),
                password: sha256_hex_of(password@),
                action: action@,
            }),
    {
        Self { username: normalize_username(username), password: hash_password(password), action }
    }
}

} // verus!
