//! The admin registry: the one administrator of the instance.

use vstd::prelude::*;
use crate::error::Error;
use crate::identity::Identity;
use crate::lease::{stored, touched, value_at, Entries, LeaseStore};
use crate::storage_types::{DataKey, Value};

verus! {

/// The administrator as read at position `now`, if one is readable.
pub open spec fn admin_of(entries: Entries, now: u32) -> Option<Identity> {
    match value_at(entries, now, DataKey::Admin) {
        Some(Value::Account(admin)) => Some(admin),
        _ => None,
    }
}

/// Whether an administrator is readable at position `now`. No lease is
/// renewed.
pub fn has_administrator(store: &LeaseStore, now: u32) -> (present: bool)
    requires
        store.wf(),
    ensures
        present == admin_of(store@, now).is_some(),
{
    store.read(now, DataKey::Admin).is_some()
}

/// Reads the administrator, renewing the lease. Fails with `NotInitialized`
/// where none is readable.
pub fn read_administrator(store: &mut LeaseStore, now: u32) -> (admin: Result<Identity, Error>)
    requires
        old(store).wf(),
    ensures
        final(store).wf(),
        final(store)@ == touched(old(store)@, now, DataKey::Admin),
        admin == match admin_of(old(store)@, now) {
            Some(id) => Ok::<Identity, Error>(id),
            None => Err(Error::NotInitialized),
        },
{
    match store.get(now, DataKey::Admin) {
        Some(Value::Account(id)) => Ok(id),
        _ => Err(Error::NotInitialized),
    }
}

/// Makes `id` the administrator, in place of any other.
pub fn write_administrator(store: &mut LeaseStore, now: u32, id: Identity)
    requires
        old(store).wf(),
    ensures
        final(store).wf(),
        final(store)@ == stored(old(store)@, now, DataKey::Admin, Value::Account(id)),
{
    store.set(now, DataKey::Admin, Value::Account(id));
}

} // verus!
