//! The reason a matched identity is denied: an expired password, or a locked
//! account carrying a free-text explanation.

use vstd::prelude::*;

verus! {

#[derive(Debug)]
pub enum DeniedReason {
    PasswordExpired,
    AccountLocked { reason: String },
}

/// The mathematical shape of a denial reason: the locked-account text is a
/// sequence of characters.
pub enum DeniedReasonV {
    PasswordExpired,
    AccountLocked { reason: Seq<char> },
}

impl View for DeniedReason {
    type V = DeniedReasonV;

    open spec fn view(&self) -> DeniedReasonV {
        match self {
            DeniedReason::PasswordExpired => DeniedReasonV::PasswordExpired,
            DeniedReason::AccountLocked { reason } => DeniedReasonV::AccountLocked {
                reason: reason@,
            },
        }
    }
}

impl DeepView for DeniedReason {
    type V = DeniedReasonV;

    open spec fn deep_view(&self) -> DeniedReasonV {
        self.view()
    }
}

impl Clone for DeniedReason {
    fn clone(&self) -> (r: Self)
        ensures
            r@ == self@,
    {
        match self {
            DeniedReason::PasswordExpired => DeniedReason::PasswordExpired,
            DeniedReason::AccountLocked { reason } => DeniedReason::AccountLocked {
                reason: reason.clone(),
            },
        }
    }
}

impl PartialEq for DeniedReason {
    fn eq(&self, other: &Self) -> (r: bool) {
        match (self, other) {
            (DeniedReason::PasswordExpired, DeniedReason::PasswordExpired) => true,
            (
                DeniedReason::AccountLocked { reason: a },
                DeniedReason::AccountLocked { reason: b },
            ) => *a == *b,
            _ => false,
        }
    }
}

impl vstd::std_specs::cmp::PartialEqSpecImpl for DeniedReason {
    open spec fn obeys_eq_spec() -> bool {
        true
    }

    open spec fn eq_spec(&self, other: &Self) -> bool {
        self@ == other@
    }
}

} // verus!
