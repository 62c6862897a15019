//! The outcome of a login attempt that matched a known identity: acceptance
//! with an assigned role, or denial with a reason. Every matched attempt
//! yields exactly one of the two.

use vstd::prelude::*;

use crate::denied_reason::{DeniedReason, DeniedReasonV};
use crate::role::Role;

verus! {

#[derive(Debug)]
pub enum LoginAction {
    Accept(Role),
    Denied(DeniedReason),
}

/// The mathematical shape of an outcome.
pub enum LoginActionV {
    Accept(Role),
    Denied(DeniedReasonV),
}

impl View for LoginAction {
    type V = LoginActionV;

    open spec fn view(&self) -> LoginActionV {
        match self {
            LoginAction::Accept(role) => LoginActionV::Accept(*role),
            LoginAction::Denied(reason) => LoginActionV::Denied(reason@),
        }
    }
}

impl DeepView for LoginAction {
    type V = LoginActionV;

    open spec fn deep_view(&self) -> LoginActionV {
        self.view()
    }
}

impl Clone for LoginAction {
    fn clone(&self) -> (r: Self)
        ensures
            r@ == self@,
    {
        match self {
            LoginAction::Accept(role) => LoginAction::Accept(*role),
            LoginAction::Denied(reason) => LoginAction::Denied(reason.clone()),
        }
    }
}

impl PartialEq for LoginAction {
    fn eq(&self, other: &Self) -> (r: bool) {
        match (self, other) {
            (LoginAction::Accept(a), LoginAction::Accept(b)) => *a == *b,
            (LoginAction::Denied(a), LoginAction::Denied(b)) => *a == *b,
            _ => false,
        }
    }
}

impl vstd::std_specs::cmp::PartialEqSpecImpl for LoginAction {
    open spec fn obeys_eq_spec() -> bool {
        true
    }

    open spec fn eq_spec(&self, other: &Self) -> bool {
        self@ == other@
    }
}

impl LoginAction {
    /// The outcome granted to a freshly registered standard user.
    pub fn standard_user() -> (r: Option<Self>)
        ensures
            r matches Some(a) && a@ == LoginActionV::Accept(Role::User),
    {
        Some(LoginAction::Accept(Role::User))
    }

    /// Dispatches the outcome to exactly one of two caller-supplied handlers:
    /// acceptance invokes `on_success` with the assigned role, denial invokes
    /// `on_denied` with the reason. No outcome invokes both, none invokes
    /// neither.
    pub fn do_login<FS: FnOnce(&Role), FD: FnOnce(&DeniedReason)>(
        &self,
        on_success: FS,
        on_denied: FD,
    )
        requires
            self matches LoginAction::Accept(role) ==> call_requires(on_success, (role,)),
            self matches LoginAction::Denied(reason) ==> call_requires(on_denied, (reason,)),
        ensures
            self matches LoginAction::Accept(role) ==> call_ensures(on_success, (role,), ()),
            self matches LoginAction::Denied(reason) ==> call_ensures(on_denied, (reason,), ()),
    {
        match self {
            LoginAction::Accept(role) => on_success(role),
            LoginAction::Denied(reason) => on_denied(reason),
        }
    }
}

} // verus!
