//! The role assigned to an accepted login. It determines post-login
//! privilege and is carried through the outcome unchanged.

use vstd::prelude::*;

verus! {

#[derive(Clone, Copy, Debug, PartialEq, Eq, Structural)]
pub enum Role {
    Admin,
    User,
    Limited,
}

} // verus!
