//! The allowance ledger: what each owner lets each spender move, and until
//! when.

use vstd::prelude::*;
use crate::error::Error;
use crate::identity::Identity;
use crate::lease::{
    lemma_steps_agree, lemma_stored_after_touched, lemma_stored_frame, lemma_stored_reads_back,
    lemma_touched_frame, lemma_touched_keeps_valid, lemma_touched_moves_past, stored, touched,
    valid, value_at, Entries, LeaseStore,
};
use crate::storage_types::{AllowanceValue, DataKey, Value};

verus! {

/// The allowance that `from` gave `spender` as read at position `now`: amount
/// zero and expiration zero where nothing is readable.
pub open spec fn allowance_of(
    entries: Entries,
    now: u32,
    from: Identity,
    spender: Identity,
) -> AllowanceValue {
    match value_at(entries, now, DataKey::Allowance(from, spender)) {
        Some(Value::Allowance(allowance)) => allowance,
        _ => AllowanceValue { amount: 0, expiration_ledger: 0 },
    }
}

/// The contents after the allowance that `from` gives `spender` was set.
pub open spec fn with_allowance(
    entries: Entries,
    now: u32,
    from: Identity,
    spender: Identity,
    allowance: AllowanceValue,
) -> Entries {
    stored(entries, now, DataKey::Allowance(from, spender), Value::Allowance(allowance))
}

/// How writing an allowance of `amount` ends.
pub open spec fn write_allowance_result(amount: i128) -> Result<(), Error> {
    if amount < 0 {
        Err(Error::NegativeAmount)
    } else {
        Ok(())
    }
}

/// The contents after an allowance of `amount` until `expiration_ledger` was
/// to be written.
pub open spec fn after_write_allowance(
    entries: Entries,
    now: u32,
    from: Identity,
    spender: Identity,
    amount: i128,
    expiration_ledger: u32,
) -> Entries {
    if amount < 0 {
        entries
    } else {
        with_allowance(entries, now, from, spender, AllowanceValue { amount, expiration_ledger })
    }
}

/// How spending `amount` of the allowance that `from` gave `spender` ends at
/// position `now`.
pub open spec fn spend_allowance_result(
    entries: Entries,
    now: u32,
    from: Identity,
    spender: Identity,
    amount: i128,
) -> Result<(), Error> {
    let held = allowance_of(entries, now, from, spender);
    if amount < 0 {
        Err(Error::NegativeAmount)
    } else if held.expiration_ledger < now {
        Err(Error::AllowanceExpired)
    } else if amount > held.amount {
        Err(Error::InsufficientAllowance)
    } else {
        Ok(())
    }
}

/// The contents after it was checked whether `amount` of the allowance that
/// `from` gave `spender` can be spent: untouched on a negative amount; else
/// only the lease was renewed.
pub open spec fn after_check_allowance(
    entries: Entries,
    now: u32,
    from: Identity,
    spender: Identity,
    amount: i128,
) -> Entries {
    if amount < 0 {
        entries
    } else {
        touched(entries, now, DataKey::Allowance(from, spender))
    }
}

/// The contents after `amount` of the allowance that `from` gave `spender`
/// was to be spent: on success the amount is reduced and the expiration is
/// the same; on failure no value has changed.
pub open spec fn after_spend_allowance(
    entries: Entries,
    now: u32,
    from: Identity,
    spender: Identity,
    amount: i128,
) -> Entries {
    let held = allowance_of(entries, now, from, spender);
    match spend_allowance_result(entries, now, from, spender, amount) {
        Ok(_) => with_allowance(
            entries,
            now,
            from,
            spender,
            AllowanceValue {
                amount: (held.amount - amount) as i128,
                expiration_ledger: held.expiration_ledger,
            },
        ),
        Err(_) => after_check_allowance(entries, now, from, spender, amount),
    }
}

/// Reads the allowance that `from` gave `spender`, renewing its lease.
pub fn read_allowance(store: &mut LeaseStore, now: u32, from: Identity, spender: Identity) -> (held:
    AllowanceValue)
    requires
        old(store).wf(),
    ensures
        final(store).wf(),
        final(store)@ == touched(old(store)@, now, DataKey::Allowance(from, spender)),
        held == allowance_of(old(store)@, now, from, spender),
        held.amount >= 0,
{
    match store.get(now, DataKey::Allowance(from, spender)) {
        Some(Value::Allowance(allowance)) => allowance,
        _ => AllowanceValue { amount: 0, expiration_ledger: 0 },
    }
}

/// Replaces the allowance that `from` gives `spender`; what was allowed
/// before does not count. An amount of zero revokes. Fails with
/// `NegativeAmount`, before the store is touched, on a negative amount.
pub fn write_allowance(
    store: &mut LeaseStore,
    now: u32,
    from: Identity,
    spender: Identity,
    amount: i128,
    expiration_ledger: u32,
) -> (done: Result<(), Error>)
    requires
        old(store).wf(),
    ensures
        final(store).wf(),
        done == write_allowance_result(amount),
        final(store)@ == after_write_allowance(
            old(store)@,
            now,
            from,
            spender,
            amount,
            expiration_ledger,
        ),
{
    if amount < 0 {
        return Err(Error::NegativeAmount);
    }
    store.set(
        now,
        DataKey::Allowance(from, spender),
        Value::Allowance(AllowanceValue { amount, expiration_ledger }),
    );
    Ok(())
}

/// Tells whether `amount` of the allowance that `from` gave `spender` can be
/// spent, as [`spend_allowance`] would find, and spends nothing. Renews the
/// lease unless the amount is negative.
pub fn check_spend_allowance(
    store: &mut LeaseStore,
    now: u32,
    from: Identity,
    spender: Identity,
    amount: i128,
) -> (checked: Result<AllowanceValue, Error>)
    requires
        old(store).wf(),
    ensures
        final(store).wf(),
        final(store)@ == after_check_allowance(old(store)@, now, from, spender, amount),
        match checked {
            Ok(held) => spend_allowance_result(old(store)@, now, from, spender, amount) is Ok
                && held == allowance_of(old(store)@, now, from, spender),
            Err(e) => spend_allowance_result(old(store)@, now, from, spender, amount) == Err::<
                (),
                Error,
            >(e),
        },
{
    if amount < 0 {
        return Err(Error::NegativeAmount);
    }
    let held = read_allowance(store, now, from, spender);
    if held.expiration_ledger < now {
        return Err(Error::AllowanceExpired);
    }
    if amount > held.amount {
        return Err(Error::InsufficientAllowance);
    }
    Ok(held)
}

/// Spends `amount` of the allowance that `from` gave `spender`. Fails with
/// `NegativeAmount`, before the store is touched, on a negative amount; then
/// with `AllowanceExpired` where the expiration lies before `now`, whatever
/// amount is left; then with `InsufficientAllowance` where the amount exceeds
/// what is left. The expiration is compared and never changed.
pub fn spend_allowance(
    store: &mut LeaseStore,
    now: u32,
    from: Identity,
    spender: Identity,
    amount: i128,
) -> (done: Result<(), Error>)
    requires
        old(store).wf(),
    ensures
        final(store).wf(),
        done == spend_allowance_result(old(store)@, now, from, spender, amount),
        final(store)@ == after_spend_allowance(old(store)@, now, from, spender, amount),
{
    let held = check_spend_allowance(store, now, from, spender, amount)?;
    let left = AllowanceValue {
        amount: held.amount - amount,
        expiration_ledger: held.expiration_ledger,
    };
    store.set(now, DataKey::Allowance(from, spender), Value::Allowance(left));
    proof {
        lemma_stored_after_touched(
            old(store)@,
            now,
            DataKey::Allowance(from, spender),
            Value::Allowance(left),
        );
    }
    Ok(())
}

/// Writing an allowance and spending one each leave a valid store valid,
/// however they end.
pub proof fn lemma_allowance_steps_keep_valid(
    entries: Entries,
    now: u32,
    from: Identity,
    spender: Identity,
    amount: i128,
    expiration_ledger: u32,
)
    requires
        valid(entries),
    ensures
        valid(after_write_allowance(entries, now, from, spender, amount, expiration_ledger)),
        valid(after_spend_allowance(entries, now, from, spender, amount)),
{
    let key = DataKey::Allowance(from, spender);
    let held = allowance_of(entries, now, from, spender);
    lemma_touched_keeps_valid(entries, now, key);
    lemma_stored_reads_back(
        entries,
        now,
        key,
        Value::Allowance(AllowanceValue { amount, expiration_ledger }),
    );
    lemma_stored_reads_back(
        entries,
        now,
        key,
        Value::Allowance(
            AllowanceValue {
                amount: (held.amount - amount) as i128,
                expiration_ledger: held.expiration_ledger,
            },
        ),
    );
}

/// Spending of an allowance ends the same way whether or not a lease was
/// renewed just before. A renewal under another key can be moved past it;
/// one under the allowance's own key, as a check makes, leaves no trace
/// once the amount is not negative.
pub proof fn lemma_spend_allowance_after_touched(
    entries: Entries,
    now: u32,
    from: Identity,
    spender: Identity,
    amount: i128,
    other: DataKey,
)
    ensures
        spend_allowance_result(touched(entries, now, other), now, from, spender, amount)
            == spend_allowance_result(entries, now, from, spender, amount),
        other != DataKey::Allowance(from, spender) ==> after_spend_allowance(
            touched(entries, now, other),
            now,
            from,
            spender,
            amount,
        ) == touched(after_spend_allowance(entries, now, from, spender, amount), now, other),
        other == DataKey::Allowance(from, spender) && amount >= 0 ==> after_spend_allowance(
            touched(entries, now, other),
            now,
            from,
            spender,
            amount,
        ) == after_spend_allowance(entries, now, from, spender, amount),
{
    let key = DataKey::Allowance(from, spender);
    let held = allowance_of(entries, now, from, spender);
    let left = Value::Allowance(
        AllowanceValue {
            amount: (held.amount - amount) as i128,
            expiration_ledger: held.expiration_ledger,
        },
    );
    lemma_touched_frame(entries, now, other, key, now);
    assert(allowance_of(touched(entries, now, other), now, from, spender) == held);
    lemma_touched_moves_past(entries, now, key, left, other);
    lemma_stored_after_touched(entries, now, key, left);
}

/// Writing an allowance or spending one, however it ends, leaves every
/// other key as it was, at every position.
pub proof fn lemma_allowance_steps_frame(
    entries: Entries,
    now: u32,
    from: Identity,
    spender: Identity,
    amount: i128,
    expiration_ledger: u32,
    other: DataKey,
    at: u32,
)
    requires
        other != DataKey::Allowance(from, spender),
    ensures
        value_at(
            after_write_allowance(entries, now, from, spender, amount, expiration_ledger),
            at,
            other,
        ) == value_at(entries, at, other),
        value_at(after_spend_allowance(entries, now, from, spender, amount), at, other)
            == value_at(entries, at, other),
{
    let key = DataKey::Allowance(from, spender);
    let held = allowance_of(entries, now, from, spender);
    lemma_touched_frame(entries, now, key, other, at);
    lemma_stored_frame(
        entries,
        now,
        key,
        Value::Allowance(AllowanceValue { amount, expiration_ledger }),
        other,
        at,
    );
    lemma_stored_frame(
        entries,
        now,
        key,
        Value::Allowance(
            AllowanceValue {
                amount: (held.amount - amount) as i128,
                expiration_ledger: held.expiration_ledger,
            },
        ),
        other,
        at,
    );
}

/// Where two stores read the same allowance at `now`, writing it or
/// spending of it ends the same way in both, and whatever the two read alike
/// before, they read alike after.
pub proof fn lemma_allowance_steps_agree(
    left: Entries,
    right: Entries,
    now: u32,
    from: Identity,
    spender: Identity,
    amount: i128,
    expiration_ledger: u32,
    other: DataKey,
)
    requires
        value_at(left, now, DataKey::Allowance(from, spender)) == value_at(
            right,
            now,
            DataKey::Allowance(from, spender),
        ),
        value_at(left, now, other) == value_at(right, now, other),
    ensures
        spend_allowance_result(left, now, from, spender, amount) == spend_allowance_result(
            right,
            now,
            from,
            spender,
            amount,
        ),
        value_at(
            after_write_allowance(left, now, from, spender, amount, expiration_ledger),
            now,
            other,
        ) == value_at(
            after_write_allowance(right, now, from, spender, amount, expiration_ledger),
            now,
            other,
        ),
        value_at(after_spend_allowance(left, now, from, spender, amount), now, other) == value_at(
            after_spend_allowance(right, now, from, spender, amount),
            now,
            other,
        ),
{
    let key = DataKey::Allowance(from, spender);
    let held = allowance_of(left, now, from, spender);
    lemma_steps_agree(
        left,
        right,
        now,
        key,
        Value::Allowance(AllowanceValue { amount, expiration_ledger }),
        other,
    );
    lemma_steps_agree(
        left,
        right,
        now,
        key,
        Value::Allowance(
            AllowanceValue {
                amount: (held.amount - amount) as i128,
                expiration_ledger: held.expiration_ledger,
            },
        ),
        other,
    );
}

} // verus!
