//! Keys and values of the ledger's store, and the lease policy they share.

use vstd::prelude::*;
use crate::identity::Identity;

verus! {

/// Sequence positions that pass in one day.
pub const DAY_IN_LEDGERS: u32 = 17280;

/// How far ahead of the current sequence position a renewed lease ends.
pub const LEASE_BUMP_AMOUNT: u32 = 518400;

/// A lease with fewer positions left than this is renewed on access.
pub const LEASE_LIFETIME_THRESHOLD: u32 = 501120;

/// Ledger tokens credited per unit purchased.
pub const UNIT_SCALE: i128 = 10000000;

/// What a purchased unit costs, in thousandths of the spot price.
pub const MARKUP_FACTOR: i128 = 1027;

/// Where an entity of the ledger is stored.
#[derive(Clone, Copy, Debug, PartialEq, Eq, Structural)]
pub enum DataKey {
    Admin,
    Metadata,
    Recipient,
    PaymentAsset,
    SpotPrice,
    Balance(Identity),
    Allowance(Identity, Identity),
}

/// What an owner lets a spender move, and until when.
#[derive(Clone, Copy, Debug, PartialEq, Eq, Structural)]
pub struct AllowanceValue {
    pub amount: i128,
    pub expiration_ledger: u32,
}

/// Name, symbol and number of decimals of the token.
#[derive(Debug, PartialEq, Eq)]
pub struct TokenMetadata {
    pub decimal: u32,
    pub name: String,
    pub symbol: String,
}

/// A stored value.
#[derive(Debug, PartialEq, Eq)]
pub enum Value {
    Account(Identity),
    Amount(i128),
    Allowance(AllowanceValue),
    Metadata(TokenMetadata),
}

/// Whether `value` may be stored under `key`: the kind of value that the key
/// is for, with no negative amount and a number of decimals that fits in
/// eight bits.
pub open spec fn fits(key: DataKey, value: Value) -> bool {
    match key {
        DataKey::Admin | DataKey::Recipient | DataKey::PaymentAsset => value is Account,
        DataKey::Metadata => value matches Value::Metadata(m) && m.decimal <= 255,
        DataKey::SpotPrice | DataKey::Balance(_) => value matches Value::Amount(a) && a >= 0,
        DataKey::Allowance(_, _) => value matches Value::Allowance(a) && a.amount >= 0,
    }
}

/// Decides [`fits`].
pub fn value_fits(key: DataKey, value: &Value) -> (ok: bool)
    ensures
        ok == fits(key, *value),
{
    match key {
        DataKey::Admin | DataKey::Recipient | DataKey::PaymentAsset => match value {
            Value::Account(_) => true,
            _ => false,
        },
        DataKey::Metadata => match value {
            Value::Metadata(metadata) => metadata.decimal <= 255,
            _ => false,
        },
        DataKey::SpotPrice | DataKey::Balance(_) => match value {
            Value::Amount(amount) => *amount >= 0,
            _ => false,
        },
        DataKey::Allowance(_, _) => match value {
            Value::Allowance(allowance) => allowance.amount >= 0,
            _ => false,
        },
    }
}

impl Clone for TokenMetadata {
    fn clone(&self) -> (copy: Self)
        ensures
            copy == *self,
    {
        TokenMetadata {
            decimal: self.decimal,
            name: self.name.clone(),
            symbol: self.symbol.clone(),
        }
    }
}

impl Clone for Value {
    fn clone(&self) -> (copy: Self)
        ensures
            copy == *self,
    {
        match self {
            Value::Account(id) => Value::Account(*id),
            Value::Amount(amount) => Value::Amount(*amount),
            Value::Allowance(allowance) => Value::Allowance(*allowance),
            Value::Metadata(metadata) => Value::Metadata(metadata.clone()),
        }
    }
}

} // verus!
