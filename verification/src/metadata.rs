//! The metadata store: name, symbol and number of decimals, written once.

use vstd::prelude::*;
use crate::error::Error;
use crate::lease::{stored, touched, value_at, Entries, LeaseStore};
use crate::storage_types::{DataKey, TokenMetadata, Value};

verus! {

/// The metadata as read at position `now`, if it is readable.
pub open spec fn metadata_of(entries: Entries, now: u32) -> Option<TokenMetadata> {
    match value_at(entries, now, DataKey::Metadata) {
        Some(Value::Metadata(metadata)) => Some(metadata),
        _ => None,
    }
}

/// How writing `metadata` ends.
pub open spec fn write_metadata_result(metadata: TokenMetadata) -> Result<(), Error> {
    if metadata.decimal > 255 {
        Err(Error::InvalidDecimals)
    } else {
        Ok(())
    }
}

/// The contents after `metadata` was to be written.
pub open spec fn after_write_metadata(
    entries: Entries,
    now: u32,
    metadata: TokenMetadata,
) -> Entries {
    if metadata.decimal > 255 {
        entries
    } else {
        stored(entries, now, DataKey::Metadata, Value::Metadata(metadata))
    }
}

/// Writes the metadata. Fails with `InvalidDecimals`, before the store is
/// touched, where the number of decimals does not fit in eight bits.
pub fn write_metadata(store: &mut LeaseStore, now: u32, metadata: TokenMetadata) -> (done: Result<
    (),
    Error,
>)
    requires
        old(store).wf(),
    ensures
        final(store).wf(),
        done == write_metadata_result(metadata),
        final(store)@ == after_write_metadata(old(store)@, now, metadata),
{
    if metadata.decimal > 255 {
        return Err(Error::InvalidDecimals);
    }
    store.set(now, DataKey::Metadata, Value::Metadata(metadata));
    Ok(())
}

fn read_metadata(store: &mut LeaseStore, now: u32) -> (metadata: Result<TokenMetadata, Error>)
    requires
        old(store).wf(),
    ensures
        final(store).wf(),
        final(store)@ == touched(old(store)@, now, DataKey::Metadata),
        metadata == match metadata_of(old(store)@, now) {
            Some(held) => Ok::<TokenMetadata, Error>(held),
            None => Err(Error::NotInitialized),
        },
        metadata matches Ok(held) ==> held.decimal <= 255,
{
    match store.get(now, DataKey::Metadata) {
        Some(Value::Metadata(held)) => Ok(held),
        _ => Err(Error::NotInitialized),
    }
}

/// Reads the number of decimals, renewing the lease. Fails with
/// `NotInitialized` where no metadata is readable.
pub fn read_decimal(store: &mut LeaseStore, now: u32) -> (decimal: Result<u32, Error>)
    requires
        old(store).wf(),
    ensures
        final(store).wf(),
        final(store)@ == touched(old(store)@, now, DataKey::Metadata),
        decimal == match metadata_of(old(store)@, now) {
            Some(held) => Ok::<u32, Error>(held.decimal),
            None => Err(Error::NotInitialized),
        },
        decimal matches Ok(d) ==> d <= 255,
{
    match read_metadata(store, now) {
        Ok(held) => Ok(held.decimal),
        Err(e) => Err(e),
    }
}

/// Reads the name, renewing the lease. Fails with `NotInitialized` where no
/// metadata is readable.
pub fn read_name(store: &mut LeaseStore, now: u32) -> (name: Result<String, Error>)
    requires
        old(store).wf(),
    ensures
        final(store).wf(),
        final(store)@ == touched(old(store)@, now, DataKey::Metadata),
        name == match metadata_of(old(store)@, now) {
            Some(held) => Ok::<String, Error>(held.name),
            None => Err(Error::NotInitialized),
        },
{
    match read_metadata(store, now) {
        Ok(held) => Ok(held.name),
        Err(e) => Err(e),
    }
}

/// Reads the symbol, renewing the lease. Fails with `NotInitialized` where
/// no metadata is readable.
pub fn read_symbol(store: &mut LeaseStore, now: u32) -> (symbol: Result<String, Error>)
    requires
        old(store).wf(),
    ensures
        final(store).wf(),
        final(store)@ == touched(old(store)@, now, DataKey::Metadata),
        symbol == match metadata_of(old(store)@, now) {
            Some(held) => Ok::<String, Error>(held.symbol),
            None => Err(Error::NotInitialized),
        },
{
    match read_metadata(store, now) {
        Ok(held) => Ok(held.symbol),
        Err(e) => Err(e),
    }
}

} // verus!
