//! Reason codes surfaced to the caller of a failed operation.

use vstd::prelude::*;

verus! {

/// Why an operation did not happen.
#[derive(Clone, Copy, Debug, PartialEq, Eq, Structural)]
pub enum Error {
    /// No administrator is readable: the instance was never set up, or the
    /// entry lapsed.
    NotInitialized,
    /// An administrator is already in place.
    AlreadyInitialized,
    /// The invocation carries no authorization of the required principal.
    Unauthorized,
    /// A negative amount or price was supplied.
    NegativeAmount,
    /// The number of decimals does not fit in eight bits.
    InvalidDecimals,
    /// The amount exceeds the account's balance.
    InsufficientBalance,
    /// The amount exceeds what the owner allowed the spender.
    InsufficientAllowance,
    /// The allowance's expiration lies before the current sequence position.
    AllowanceExpired,
    /// A sum or product left the range of the amount type.
    Overflow,
}

} // verus!
