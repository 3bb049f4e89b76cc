//! The exchange: who is paid, in which asset, at what price, and what a
//! purchase credits and costs.

use vstd::prelude::*;
use crate::error::Error;
use crate::identity::Identity;
use crate::lease::{stored, touched, value_at, Entries, LeaseStore};
use crate::storage_types::{DataKey, Value, MARKUP_FACTOR, UNIT_SCALE};

verus! {

/// What a purchase credits and what it costs.
#[derive(Clone, Copy, Debug, PartialEq, Eq, Structural)]
pub struct Purchase {
    /// Ledger tokens to credit.
    pub tokens: i128,
    /// Units of the payment asset to pay.
    pub price: i128,
}

/// The purchase of `grams` at `spot_price`: `UNIT_SCALE` tokens for each
/// gram, at `MARKUP_FACTOR` times the grams times the spot price. There is
/// none for a negative argument, nor where either amount leaves the range
/// of amounts.
pub open spec fn purchase_of(grams: i128, spot_price: i128) -> Result<Purchase, Error> {
    if grams < 0 || spot_price < 0 {
        Err(Error::NegativeAmount)
    } else if grams * UNIT_SCALE > i128::MAX || MARKUP_FACTOR * grams * spot_price > i128::MAX {
        Err(Error::Overflow)
    } else {
        Ok(
            Purchase {
                tokens: (grams * UNIT_SCALE) as i128,
                price: (MARKUP_FACTOR * grams * spot_price) as i128,
            },
        )
    }
}

/// Computes [`purchase_of`].
pub fn quote_purchase(grams: i128, spot_price: i128) -> (quote: Result<Purchase, Error>)
    ensures
        quote == purchase_of(grams, spot_price),
{
    if grams < 0 || spot_price < 0 {
        return Err(Error::NegativeAmount);
    }
    let tokens = match grams.checked_mul(UNIT_SCALE) {
        Some(tokens) => tokens,
        None => { return Err(Error::Overflow); },
    };
    let marked_up: i128 = MARKUP_FACTOR * grams;
    assert(marked_up * spot_price >= 0) by (nonlinear_arith)
        requires
            marked_up >= 0,
            spot_price >= 0,
    ;
    match marked_up.checked_mul(spot_price) {
        Some(price) => Ok(Purchase { tokens, price }),
        None => Err(Error::Overflow),
    }
}

/// The recipient of payments as read at position `now`, if one is readable.
pub open spec fn recipient_of(entries: Entries, now: u32) -> Option<Identity> {
    match value_at(entries, now, DataKey::Recipient) {
        Some(Value::Account(recipient)) => Some(recipient),
        _ => None,
    }
}

/// The payment asset as read at position `now`, if one is readable.
pub open spec fn payment_asset_of(entries: Entries, now: u32) -> Option<Identity> {
    match value_at(entries, now, DataKey::PaymentAsset) {
        Some(Value::Account(token)) => Some(token),
        _ => None,
    }
}

/// The spot price per gram as read at position `now`, if one is readable.
pub open spec fn spot_price_of(entries: Entries, now: u32) -> Option<i128> {
    match value_at(entries, now, DataKey::SpotPrice) {
        Some(Value::Amount(price)) => Some(price),
        _ => None,
    }
}

/// How writing a spot price of `price` ends.
pub open spec fn write_spot_price_result(price: i128) -> Result<(), Error> {
    if price < 0 {
        Err(Error::NegativeAmount)
    } else {
        Ok(())
    }
}

/// The contents after a spot price of `price` was to be written.
pub open spec fn after_write_spot_price(entries: Entries, now: u32, price: i128) -> Entries {
    if price < 0 {
        entries
    } else {
        stored(entries, now, DataKey::SpotPrice, Value::Amount(price))
    }
}

/// Makes `recipient` the one who is paid.
pub fn write_recipient_address(store: &mut LeaseStore, now: u32, recipient: Identity)
    requires
        old(store).wf(),
    ensures
        final(store).wf(),
        final(store)@ == stored(old(store)@, now, DataKey::Recipient, Value::Account(recipient)),
{
    store.set(now, DataKey::Recipient, Value::Account(recipient));
}

/// Makes `token` the asset in which payment is taken.
pub fn write_token_address(store: &mut LeaseStore, now: u32, token: Identity)
    requires
        old(store).wf(),
    ensures
        final(store).wf(),
        final(store)@ == stored(old(store)@, now, DataKey::PaymentAsset, Value::Account(token)),
{
    store.set(now, DataKey::PaymentAsset, Value::Account(token));
}

/// Sets the spot price per gram. Fails with `NegativeAmount`, before the
/// store is touched, on a negative price.
pub fn write_spot_price_per_gram(store: &mut LeaseStore, now: u32, price: i128) -> (done: Result<
    (),
    Error,
>)
    requires
        old(store).wf(),
    ensures
        final(store).wf(),
        done == write_spot_price_result(price),
        final(store)@ == after_write_spot_price(old(store)@, now, price),
{
    if price < 0 {
        return Err(Error::NegativeAmount);
    }
    store.set(now, DataKey::SpotPrice, Value::Amount(price));
    Ok(())
}

/// Reads the recipient of payments, renewing the lease. Fails with
/// `NotInitialized` where none is readable.
pub fn read_recipient_address(store: &mut LeaseStore, now: u32) -> (recipient: Result<
    Identity,
    Error,
>)
    requires
        old(store).wf(),
    ensures
        final(store).wf(),
        final(store)@ == touched(old(store)@, now, DataKey::Recipient),
        recipient == match recipient_of(old(store)@, now) {
            Some(id) => Ok::<Identity, Error>(id),
            None => Err(Error::NotInitialized),
        },
{
    match store.get(now, DataKey::Recipient) {
        Some(Value::Account(id)) => Ok(id),
        _ => Err(Error::NotInitialized),
    }
}

/// Reads the payment asset, renewing the lease. Fails with `NotInitialized`
/// where none is readable.
pub fn read_token_address(store: &mut LeaseStore, now: u32) -> (token: Result<Identity, Error>)
    requires
        old(store).wf(),
    ensures
        final(store).wf(),
        final(store)@ == touched(old(store)@, now, DataKey::PaymentAsset),
        token == match payment_asset_of(old(store)@, now) {
            Some(id) => Ok::<Identity, Error>(id),
            None => Err(Error::NotInitialized),
        },
{
    match store.get(now, DataKey::PaymentAsset) {
        Some(Value::Account(id)) => Ok(id),
        _ => Err(Error::NotInitialized),
    }
}

/// Reads the spot price per gram, renewing the lease. The price is never
/// negative. Fails with `NotInitialized` where none is readable.
pub fn read_spot_price_per_gram(store: &mut LeaseStore, now: u32) -> (price: Result<i128, Error>)
    requires
        old(store).wf(),
    ensures
        final(store).wf(),
        final(store)@ == touched(old(store)@, now, DataKey::SpotPrice),
        price == match spot_price_of(old(store)@, now) {
            Some(held) => Ok::<i128, Error>(held),
            None => Err(Error::NotInitialized),
        },
        price matches Ok(held) ==> held >= 0,
{
    match store.get(now, DataKey::SpotPrice) {
        Some(Value::Amount(held)) => Ok(held),
        _ => Err(Error::NotInitialized),
    }
}

} // verus!
