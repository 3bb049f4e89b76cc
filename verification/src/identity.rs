//! Principals of the ledger.

use vstd::prelude::*;

verus! {

/// What kind of principal an identity names.
#[derive(Clone, Copy, Debug, PartialEq, Eq, Hash, Structural)]
pub enum IdentityKind {
    /// An account, named by its public key.
    Account,
    /// A contract, named by its hash.
    Contract,
}

/// An account identifier: the kind of principal and its 256-bit name, held as
/// two halves. Two identities are the same principal exactly when all three
/// fields agree.
#[derive(Clone, Copy, Debug, PartialEq, Eq, Hash, Structural)]
pub struct Identity {
    pub kind: IdentityKind,
    pub high: u128,
    pub low: u128,
}

impl Identity {
    /// The account whose key has the given halves.
    pub fn account(high: u128, low: u128) -> (id: Identity)
        ensures
            id == (Identity { kind: IdentityKind::Account, high, low }),
    {
        Identity { kind: IdentityKind::Account, high, low }
    }

    /// The contract whose hash has the given halves.
    pub fn contract(high: u128, low: u128) -> (id: Identity)
        ensures
            id == (Identity { kind: IdentityKind::Contract, high, low }),
    {
        Identity { kind: IdentityKind::Contract, high, low }
    }
}

} // verus!
