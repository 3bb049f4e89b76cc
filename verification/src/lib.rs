//! A token ledger with a priced mint.
//!
//! Holders buy ledger tokens by paying an external asset at a spot price that
//! the administrator sets. Balances, allowances, the administrator and the
//! exchange parameters live in a store whose entries expire unless their
//! leases are renewed; every access renews them.
//!
//! The ledger does no input or output. The host tells it, with each
//! invocation, the sequence position and who has authorized the call; it
//! carries out the payment that a mint orders, and emits the event that an
//! operation returns.
//!
//! - [`lease`]: the store and its leases.
//! - [`admin`], [`metadata`], [`balance`], [`allowance`], [`native_token`]:
//!   what is kept in the store, one module for each kind of entry.
//! - [`contract`]: the operations of the token.
//! - [`footprint`]: the keys each operation works on.
//! - [`theorems`]: what holds of the operations taken together.

pub mod admin;
pub mod allowance;
pub mod balance;
pub mod contract;
pub mod error;
pub mod footprint;
pub mod identity;
pub mod invocation;
pub mod lease;
pub mod metadata;
pub mod native_token;
pub mod storage_types;
pub mod theorems;

pub use crate::contract::Token;
pub use crate::error::Error;
pub use crate::identity::Identity;
pub use crate::invocation::Invocation;
