//! The flat, fail-fast error model of the marketplace. A failing command
//! returns one of these categories and leaves the state unchanged.

use vstd::prelude::*;

verus! {

/// Error categories surfaced by every command.
#[derive(Clone, Copy, Debug, PartialEq, Eq, Structural)]
pub enum ContractError {
    /// A parameter is malformed, zero, or out of range.
    ValidationError,
    /// The caller is not the seller, the owner, or an admin.
    AuthorizationError,
    /// The state does not allow the requested transition.
    StateConflict,
    /// No record exists for the given key.
    NotFoundError,
    /// The funds supplied do not exactly equal the required amount.
    PaymentError,
}

impl ContractError {
    /// A short human-readable description of the error category.
    pub fn describe(&self) -> (r: &'static str)
        ensures
            r@ == self.describe_spec(),
    {
        match self {
            ContractError::ValidationError => "validation error",
            ContractError::AuthorizationError => "authorization error",
            ContractError::StateConflict => "state conflict",
            ContractError::NotFoundError => "not found",
            ContractError::PaymentError => "payment error",
        }
    }

    pub open spec fn describe_spec(&self) -> Seq<char> {
        match self {
            ContractError::ValidationError => "validation error"@,
            ContractError::AuthorizationError => "authorization error"@,
            ContractError::StateConflict => "state conflict"@,
            ContractError::NotFoundError => "not found"@,
            ContractError::PaymentError => "payment error"@,
        }
    }
}

} // verus!
