//! The balance ledger: one non-negative balance for each account.

use vstd::prelude::*;
use crate::error::Error;
use crate::identity::Identity;
use crate::lease::{
    lemma_steps_agree, lemma_stored_after_touched, lemma_stored_frame, lemma_stored_reads_back,
    lemma_touched_frame, lemma_touched_keeps_valid, lemma_touched_moves_past, stored,
    stored_value_stays_readable, touched, valid, value_at, Entries, LeaseStore,
};
use crate::storage_types::{DataKey, Value, LEASE_LIFETIME_THRESHOLD};

verus! {

/// The balance of `account` as read at position `now`: zero where nothing is
/// readable.
pub open spec fn balance_of(entries: Entries, now: u32, account: Identity) -> i128 {
    match value_at(entries, now, DataKey::Balance(account)) {
        Some(Value::Amount(amount)) => amount,
        _ => 0,
    }
}

/// The contents after the balance of `account` was set to `amount`.
pub open spec fn with_balance(
    entries: Entries,
    now: u32,
    account: Identity,
    amount: i128,
) -> Entries {
    stored(entries, now, DataKey::Balance(account), Value::Amount(amount))
}

/// How a credit of `amount` to `account` ends.
pub open spec fn receive_balance_result(
    entries: Entries,
    now: u32,
    account: Identity,
    amount: i128,
) -> Result<(), Error> {
    if amount < 0 {
        Err(Error::NegativeAmount)
    } else if balance_of(entries, now, account) + amount > i128::MAX {
        Err(Error::Overflow)
    } else {
        Ok(())
    }
}

/// The contents after it was checked whether `account` can be credited or
/// debited with `amount`: untouched on a negative amount; else only the
/// lease was renewed.
pub open spec fn after_check_balance(
    entries: Entries,
    now: u32,
    account: Identity,
    amount: i128,
) -> Entries {
    if amount < 0 {
        entries
    } else {
        touched(entries, now, DataKey::Balance(account))
    }
}

/// The contents after a credit of `amount` to `account` was asked for.
pub open spec fn after_receive_balance(
    entries: Entries,
    now: u32,
    account: Identity,
    amount: i128,
) -> Entries {
    match receive_balance_result(entries, now, account, amount) {
        Ok(_) => with_balance(
            entries,
            now,
            account,
            (balance_of(entries, now, account) + amount) as i128,
        ),
        Err(_) => after_check_balance(entries, now, account, amount),
    }
}

/// How a debit of `amount` from `account` ends.
pub open spec fn spend_balance_result(
    entries: Entries,
    now: u32,
    account: Identity,
    amount: i128,
) -> Result<(), Error> {
    if amount < 0 {
        Err(Error::NegativeAmount)
    } else if amount > balance_of(entries, now, account) {
        Err(Error::InsufficientBalance)
    } else {
        Ok(())
    }
}

/// The contents after a debit of `amount` from `account` was asked for.
pub open spec fn after_spend_balance(
    entries: Entries,
    now: u32,
    account: Identity,
    amount: i128,
) -> Entries {
    match spend_balance_result(entries, now, account, amount) {
        Ok(_) => with_balance(
            entries,
            now,
            account,
            (balance_of(entries, now, account) - amount) as i128,
        ),
        Err(_) => after_check_balance(entries, now, account, amount),
    }
}

/// Reads the balance of `account`, renewing its lease. An account without a
/// readable entry has balance zero.
pub fn read_balance(store: &mut LeaseStore, now: u32, account: Identity) -> (balance: i128)
    requires
        old(store).wf(),
    ensures
        final(store).wf(),
        final(store)@ == touched(old(store)@, now, DataKey::Balance(account)),
        balance == balance_of(old(store)@, now, account),
        balance >= 0,
{
    match store.get(now, DataKey::Balance(account)) {
        Some(Value::Amount(amount)) => amount,
        _ => 0,
    }
}

fn write_balance(store: &mut LeaseStore, now: u32, account: Identity, amount: i128)
    requires
        old(store).wf(),
        amount >= 0,
    ensures
        final(store).wf(),
        final(store)@ == with_balance(old(store)@, now, account, amount),
{
    store.set(now, DataKey::Balance(account), Value::Amount(amount));
}

/// Tells whether `account` can take a credit of `amount`, as
/// [`receive_balance`] would find, and credits nothing. Renews the lease
/// unless the amount is negative.
pub fn check_receive_balance(
    store: &mut LeaseStore,
    now: u32,
    account: Identity,
    amount: i128,
) -> (sum: Result<i128, Error>)
    requires
        old(store).wf(),
    ensures
        final(store).wf(),
        final(store)@ == after_check_balance(old(store)@, now, account, amount),
        match sum {
            Ok(sum) => receive_balance_result(old(store)@, now, account, amount) is Ok && sum
                == balance_of(old(store)@, now, account) + amount,
            Err(e) => receive_balance_result(old(store)@, now, account, amount) == Err::<
                (),
                Error,
            >(e),
        },
{
    if amount < 0 {
        return Err(Error::NegativeAmount);
    }
    let balance = read_balance(store, now, account);
    match balance.checked_add(amount) {
        Some(sum) => Ok(sum),
        None => Err(Error::Overflow),
    }
}

/// Tells whether `account` can bear a debit of `amount`, as
/// [`spend_balance`] would find, and debits nothing. Renews the lease unless
/// the amount is negative.
pub fn check_spend_balance(
    store: &mut LeaseStore,
    now: u32,
    account: Identity,
    amount: i128,
) -> (left: Result<i128, Error>)
    requires
        old(store).wf(),
    ensures
        final(store).wf(),
        final(store)@ == after_check_balance(old(store)@, now, account, amount),
        match left {
            Ok(left) => spend_balance_result(old(store)@, now, account, amount) is Ok && left
                == balance_of(old(store)@, now, account) - amount,
            Err(e) => spend_balance_result(old(store)@, now, account, amount) == Err::<(), Error>(
                e,
            ),
        },
{
    if amount < 0 {
        return Err(Error::NegativeAmount);
    }
    let balance = read_balance(store, now, account);
    if balance < amount {
        return Err(Error::InsufficientBalance);
    }
    Ok(balance - amount)
}

/// Credits `amount` to `account`. Fails with `NegativeAmount`, before the
/// store is touched, on a negative amount, and with `Overflow` where the new
/// balance would leave the range of amounts; then no value has changed.
pub fn receive_balance(store: &mut LeaseStore, now: u32, account: Identity, amount: i128) -> (done:
    Result<(), Error>)
    requires
        old(store).wf(),
    ensures
        final(store).wf(),
        done == receive_balance_result(old(store)@, now, account, amount),
        final(store)@ == after_receive_balance(old(store)@, now, account, amount),
{
    let sum = check_receive_balance(store, now, account, amount)?;
    write_balance(store, now, account, sum);
    proof {
        lemma_stored_after_touched(old(store)@, now, DataKey::Balance(account), Value::Amount(sum));
    }
    Ok(())
}

/// Debits `amount` from `account`. Fails with `NegativeAmount`, before the
/// store is touched, on a negative amount, and with `InsufficientBalance`
/// where the amount exceeds the balance; then no value has changed.
pub fn spend_balance(store: &mut LeaseStore, now: u32, account: Identity, amount: i128) -> (done:
    Result<(), Error>)
    requires
        old(store).wf(),
    ensures
        final(store).wf(),
        done == spend_balance_result(old(store)@, now, account, amount),
        final(store)@ == after_spend_balance(old(store)@, now, account, amount),
{
    let left = check_spend_balance(store, now, account, amount)?;
    write_balance(store, now, account, left);
    proof {
        lemma_stored_after_touched(
            old(store)@,
            now,
            DataKey::Balance(account),
            Value::Amount(left),
        );
    }
    Ok(())
}

/// A credit and a debit each leave a valid store valid, however they end.
pub proof fn lemma_balance_steps_keep_valid(
    entries: Entries,
    now: u32,
    account: Identity,
    amount: i128,
)
    requires
        valid(entries),
    ensures
        valid(after_receive_balance(entries, now, account, amount)),
        valid(after_spend_balance(entries, now, account, amount)),
{
    let key = DataKey::Balance(account);
    let held = balance_of(entries, now, account);
    lemma_touched_keeps_valid(entries, now, key);
    lemma_stored_reads_back(entries, now, key, Value::Amount((held + amount) as i128));
    lemma_stored_reads_back(entries, now, key, Value::Amount((held - amount) as i128));
}

/// A credit or a debit ends the same way whether or not a lease was renewed
/// just before. A renewal under another key can be moved past it; one under
/// the account's own key, as a check makes, leaves no trace once the amount
/// is not negative.
pub proof fn lemma_balance_steps_after_touched(
    entries: Entries,
    now: u32,
    account: Identity,
    amount: i128,
    other: DataKey,
)
    ensures
        spend_balance_result(touched(entries, now, other), now, account, amount)
            == spend_balance_result(entries, now, account, amount),
        receive_balance_result(touched(entries, now, other), now, account, amount)
            == receive_balance_result(entries, now, account, amount),
        other != DataKey::Balance(account) ==> after_spend_balance(
            touched(entries, now, other),
            now,
            account,
            amount,
        ) == touched(after_spend_balance(entries, now, account, amount), now, other),
        other != DataKey::Balance(account) ==> after_receive_balance(
            touched(entries, now, other),
            now,
            account,
            amount,
        ) == touched(after_receive_balance(entries, now, account, amount), now, other),
        other == DataKey::Balance(account) && amount >= 0 ==> after_spend_balance(
            touched(entries, now, other),
            now,
            account,
            amount,
        ) == after_spend_balance(entries, now, account, amount),
        other == DataKey::Balance(account) && amount >= 0 ==> after_receive_balance(
            touched(entries, now, other),
            now,
            account,
            amount,
        ) == after_receive_balance(entries, now, account, amount),
{
    let key = DataKey::Balance(account);
    let held = balance_of(entries, now, account);
    lemma_touched_frame(entries, now, other, key, now);
    assert(balance_of(touched(entries, now, other), now, account) == held);
    lemma_touched_moves_past(entries, now, key, Value::Amount((held + amount) as i128), other);
    lemma_touched_moves_past(entries, now, key, Value::Amount((held - amount) as i128), other);
    lemma_stored_after_touched(entries, now, key, Value::Amount((held + amount) as i128));
    lemma_stored_after_touched(entries, now, key, Value::Amount((held - amount) as i128));
}

/// A debit that succeeds takes the amount off the balance, which then stays
/// readable up to the lifetime threshold later.
pub proof fn lemma_debit(entries: Entries, now: u32, account: Identity, amount: i128, later: u32)
    requires
        spend_balance_result(entries, now, account, amount) is Ok,
        now <= later <= now + LEASE_LIFETIME_THRESHOLD,
    ensures
        balance_of(after_spend_balance(entries, now, account, amount), later, account)
            == balance_of(entries, now, account) - amount,
{
    stored_value_stays_readable(
        entries,
        now,
        DataKey::Balance(account),
        Value::Amount((balance_of(entries, now, account) - amount) as i128),
        later,
    );
}

/// A credit that succeeds adds the amount to the balance, which then stays
/// readable up to the lifetime threshold later.
pub proof fn lemma_credit(entries: Entries, now: u32, account: Identity, amount: i128, later: u32)
    requires
        receive_balance_result(entries, now, account, amount) is Ok,
        now <= later <= now + LEASE_LIFETIME_THRESHOLD,
    ensures
        balance_of(after_receive_balance(entries, now, account, amount), later, account)
            == balance_of(entries, now, account) + amount,
{
    stored_value_stays_readable(
        entries,
        now,
        DataKey::Balance(account),
        Value::Amount((balance_of(entries, now, account) + amount) as i128),
        later,
    );
}

/// A credit or a debit, however it ends, leaves every other key as it was,
/// at every position; where it fails it leaves the balance itself as it
/// was.
pub proof fn lemma_balance_steps_frame(
    entries: Entries,
    now: u32,
    account: Identity,
    amount: i128,
    other: DataKey,
    at: u32,
)
    ensures
        other != DataKey::Balance(account) ==> value_at(
            after_receive_balance(entries, now, account, amount),
            at,
            other,
        ) == value_at(entries, at, other),
        other != DataKey::Balance(account) ==> value_at(
            after_spend_balance(entries, now, account, amount),
            at,
            other,
        ) == value_at(entries, at, other),
        receive_balance_result(entries, now, account, amount) is Err ==> balance_of(
            after_receive_balance(entries, now, account, amount),
            now,
            account,
        ) == balance_of(entries, now, account),
        spend_balance_result(entries, now, account, amount) is Err ==> balance_of(
            after_spend_balance(entries, now, account, amount),
            now,
            account,
        ) == balance_of(entries, now, account),
{
    let key = DataKey::Balance(account);
    let held = balance_of(entries, now, account);
    lemma_touched_frame(entries, now, key, other, at);
    lemma_touched_frame(entries, now, key, key, now);
    if other != key {
        lemma_stored_frame(entries, now, key, Value::Amount((held + amount) as i128), other, at);
        lemma_stored_frame(entries, now, key, Value::Amount((held - amount) as i128), other, at);
    }
}

/// Where two stores read the same balance of `account` at `now`, a credit
/// or a debit ends the same way in both, and whatever the two read alike
/// before, they read alike after.
pub proof fn lemma_balance_steps_agree(
    left: Entries,
    right: Entries,
    now: u32,
    account: Identity,
    amount: i128,
    other: DataKey,
)
    requires
        value_at(left, now, DataKey::Balance(account)) == value_at(
            right,
            now,
            DataKey::Balance(account),
        ),
        value_at(left, now, other) == value_at(right, now, other),
    ensures
        receive_balance_result(left, now, account, amount) == receive_balance_result(
            right,
            now,
            account,
            amount,
        ),
        spend_balance_result(left, now, account, amount) == spend_balance_result(
            right,
            now,
            account,
            amount,
        ),
        value_at(after_receive_balance(left, now, account, amount), now, other) == value_at(
            after_receive_balance(right, now, account, amount),
            now,
            other,
        ),
        value_at(after_spend_balance(left, now, account, amount), now, other) == value_at(
            after_spend_balance(right, now, account, amount),
            now,
            other,
        ),
{
    let key = DataKey::Balance(account);
    let held = balance_of(left, now, account);
    lemma_steps_agree(left, right, now, key, Value::Amount((held + amount) as i128), other);
    lemma_steps_agree(left, right, now, key, Value::Amount((held - amount) as i128), other);
}

} // verus!
