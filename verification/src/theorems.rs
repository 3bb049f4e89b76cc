//! What holds of the operations taken together.

use vstd::prelude::*;
use crate::allowance::{
    after_spend_allowance, after_write_allowance, allowance_of, lemma_allowance_steps_frame,
    lemma_allowance_steps_keep_valid, spend_allowance_result,
};
use crate::admin::admin_of;
use crate::balance::{
    after_receive_balance, after_spend_balance, balance_of, lemma_balance_steps_frame,
    lemma_balance_steps_keep_valid, lemma_credit, lemma_debit,
};
use crate::contract::{
    after_admin_write, after_approve, after_burn, after_burn_from, after_initialize, after_mint,
    after_require_admin, after_set_spot_price, after_transfer, after_transfer_from,
    approve_result, burn_from_result, burn_result, initialize_result, instance_renewed,
    lemma_instance_renewed_frame, lemma_instance_renewed_keeps_data,
    lemma_instance_renewed_keeps_valid, mint_read, require_admin_result, mint_result, mint_terms,
    set_spot_price_result, transfer_from_result, transfer_result, Event, MintStep, PaymentStatus,
};
use crate::error::Error;
use crate::identity::Identity;
use crate::invocation::Invocation;
use crate::lease::{
    lemma_stored_frame, lemma_stored_reads_back, lemma_touched_frame, lemma_touched_keeps_valid,
    same_data, stored, touched, valid, value_at, Entries,
};
use crate::metadata::metadata_of;
use crate::native_token::{payment_asset_of, recipient_of, spot_price_of};
use crate::storage_types::{
    AllowanceValue, DataKey, TokenMetadata, Value, LEASE_LIFETIME_THRESHOLD, MARKUP_FACTOR,
    UNIT_SCALE,
};

verus! {

/// Every balance is the same in both, as read at `now`.
pub open spec fn same_balances(left: Entries, right: Entries, now: u32) -> bool {
    forall|account: Identity| #[trigger]
        balance_of(left, now, account) == balance_of(right, now, account)
}

/// The administrator, the metadata and the exchange parameters are the same
/// in both, as read at `now`.
pub open spec fn same_settings(left: Entries, right: Entries, now: u32) -> bool {
    &&& admin_of(left, now) == admin_of(right, now)
    &&& metadata_of(left, now) == metadata_of(right, now)
    &&& recipient_of(left, now) == recipient_of(right, now)
    &&& payment_asset_of(left, now) == payment_asset_of(right, now)
    &&& spot_price_of(left, now) == spot_price_of(right, now)
}

/// What the accounts of a list hold together, as read at `now`.
pub open spec fn sum_of_balances(entries: Entries, now: u32, accounts: Seq<Identity>) -> int
    decreases accounts.len(),
{
    if accounts.len() == 0 {
        0
    } else {
        balance_of(entries, now, accounts.last()) + sum_of_balances(
            entries,
            now,
            accounts.drop_last(),
        )
    }
}

/// No account of a valid ledger has a negative balance.
pub proof fn balance_never_negative(entries: Entries, now: u32, account: Identity)
    requires
        valid(entries),
    ensures
        balance_of(entries, now, account) >= 0,
{
}

/// Every operation on balances and allowances leaves a valid ledger valid,
/// however it ends: no amount is ever stored negative.
pub proof fn ledger_operations_keep_valid(
    entries: Entries,
    ctx: Invocation,
    a: Identity,
    b: Identity,
    c: Identity,
    amount: i128,
    expiration_ledger: u32,
)
    requires
        valid(entries),
    ensures
        valid(after_approve(entries, ctx, a, b, amount, expiration_ledger)),
        valid(after_transfer(entries, ctx, a, b, amount)),
        valid(after_transfer_from(entries, ctx, a, b, c, amount)),
        valid(after_burn(entries, ctx, a, amount)),
        valid(after_burn_from(entries, ctx, a, b, amount)),
{
    let now = ctx.sequence;
    let s1 = instance_renewed(entries, now);
    lemma_instance_renewed_keeps_valid(entries, now);
    lemma_allowance_steps_keep_valid(s1, now, a, b, amount, expiration_ledger);
    lemma_balance_steps_keep_valid(s1, now, a, amount);
    lemma_balance_steps_keep_valid(after_spend_balance(s1, now, a, amount), now, b, amount);
    lemma_allowance_steps_keep_valid(s1, now, b, a, amount, expiration_ledger);
    let s2 = after_spend_allowance(s1, now, b, a, amount);
    lemma_balance_steps_keep_valid(s2, now, b, amount);
    lemma_balance_steps_keep_valid(after_spend_balance(s2, now, b, amount), now, c, amount);
    lemma_looked_at_reads_alike(entries, now, DataKey::Balance(a), DataKey::Balance(b));
    lemma_looked_at_reads_alike(entries, now, DataKey::Allowance(b, a), DataKey::Balance(b));
}

/// Every operation on the exchange leaves a valid ledger valid, however it
/// ends: no price and no amount is ever stored negative, and no number of
/// decimals beyond 255.
pub proof fn exchange_operations_keep_valid(
    entries: Entries,
    ctx: Invocation,
    a: Identity,
    b: Identity,
    c: Identity,
    amount: i128,
    metadata: TokenMetadata,
    payment: PaymentStatus,
)
    requires
        valid(entries),
    ensures
        valid(after_initialize(entries, ctx, a, metadata, b, c, amount)),
        valid(after_mint(entries, ctx, a, amount, payment)),
        valid(after_set_spot_price(entries, ctx, amount)),
        valid(after_admin_write(entries, ctx, DataKey::Admin, Value::Account(a))),
        valid(after_admin_write(entries, ctx, DataKey::Recipient, Value::Account(a))),
        valid(after_admin_write(entries, ctx, DataKey::PaymentAsset, Value::Account(a))),
{
    let now = ctx.sequence;
    assert(valid(after_initialize(entries, ctx, a, metadata, b, c, amount))) by {
        if initialize_result(entries, ctx, metadata.decimal, amount) is Ok {
            let s1 = stored(entries, now, DataKey::Admin, Value::Account(a));
            let s2 = stored(s1, now, DataKey::Metadata, Value::Metadata(metadata));
            let s3 = stored(s2, now, DataKey::PaymentAsset, Value::Account(c));
            let s4 = stored(s3, now, DataKey::Recipient, Value::Account(b));
            lemma_stored_reads_back(entries, now, DataKey::Admin, Value::Account(a));
            lemma_stored_reads_back(s1, now, DataKey::Metadata, Value::Metadata(metadata));
            lemma_stored_reads_back(s2, now, DataKey::PaymentAsset, Value::Account(c));
            lemma_stored_reads_back(s3, now, DataKey::Recipient, Value::Account(b));
            lemma_stored_reads_back(s4, now, DataKey::SpotPrice, Value::Amount(amount));
        }
    }
    assert(valid(mint_read(entries, now))) by {
        lemma_touched_keeps_valid(entries, now, DataKey::Admin);
        let r1 = touched(entries, now, DataKey::Admin);
        lemma_instance_renewed_keeps_valid(r1, now);
        let r2 = instance_renewed(r1, now);
        lemma_touched_keeps_valid(r2, now, DataKey::PaymentAsset);
        let r3 = touched(r2, now, DataKey::PaymentAsset);
        lemma_touched_keeps_valid(r3, now, DataKey::Recipient);
        lemma_touched_keeps_valid(touched(r3, now, DataKey::Recipient), now, DataKey::SpotPrice);
    }
    assert(valid(after_mint(entries, ctx, a, amount, payment))) by {
        match mint_terms(entries, ctx, a, amount) {
            Ok(terms) => {
                lemma_balance_steps_keep_valid(mint_read(entries, now), now, a, terms.tokens);
            },
            Err(_) => {},
        }
    }
    assert(valid(after_require_admin(entries, ctx))) by {
        lemma_touched_keeps_valid(entries, now, DataKey::Admin);
        lemma_instance_renewed_keeps_valid(touched(entries, now, DataKey::Admin), now);
    }
    let gated = after_require_admin(entries, ctx);
    lemma_stored_reads_back(gated, now, DataKey::Admin, Value::Account(a));
    lemma_stored_reads_back(gated, now, DataKey::Recipient, Value::Account(a));
    lemma_stored_reads_back(gated, now, DataKey::PaymentAsset, Value::Account(a));
    lemma_stored_reads_back(gated, now, DataKey::SpotPrice, Value::Amount(amount));
}

/// A transfer that succeeds takes the amount from one balance, adds it to
/// the other and leaves every other balance as it was.
pub proof fn transfer_moves_amount(
    entries: Entries,
    ctx: Invocation,
    from: Identity,
    to: Identity,
    amount: i128,
    other: Identity,
)
    requires
        valid(entries),
        transfer_result(entries, ctx, from, to, amount) is Ok,
    ensures
        ({
            let now = ctx.sequence;
            let after = after_transfer(entries, ctx, from, to, amount);
            &&& valid(after)
            &&& from != to ==> balance_of(after, now, from) == balance_of(entries, now, from)
                - amount
            &&& from != to ==> balance_of(after, now, to) == balance_of(entries, now, to) + amount
            &&& from == to ==> balance_of(after, now, from) == balance_of(entries, now, from)
            &&& other != from && other != to ==> balance_of(after, now, other) == balance_of(
                entries,
                now,
                other,
            )
        }),
{
}

/// A burn that succeeds takes the amount from the holder's balance and
/// leaves every other balance as it was.
pub proof fn burn_removes_amount(
    entries: Entries,
    ctx: Invocation,
    from: Identity,
    amount: i128,
    other: Identity,
)
    requires
        valid(entries),
        burn_result(entries, ctx, from, amount) is Ok,
    ensures
        valid(after_burn(entries, ctx, from, amount)),
        balance_of(after_burn(entries, ctx, from, amount), ctx.sequence, from) == balance_of(
            entries,
            ctx.sequence,
            from,
        ) - amount,
        other != from ==> balance_of(after_burn(entries, ctx, from, amount), ctx.sequence, other)
            == balance_of(entries, ctx.sequence, other),
{
}

/// A delegated transfer that succeeds moves the amount as a transfer does
/// and takes it off the allowance, whose expiration stays.
pub proof fn transfer_from_moves_amount(
    entries: Entries,
    ctx: Invocation,
    spender: Identity,
    from: Identity,
    to: Identity,
    amount: i128,
    other: Identity,
)
    requires
        valid(entries),
        transfer_from_result(entries, ctx, spender, from, to, amount) is Ok,
    ensures
        ({
            let now = ctx.sequence;
            let after = after_transfer_from(entries, ctx, spender, from, to, amount);
            let held = allowance_of(entries, now, from, spender);
            &&& valid(after)
            &&& allowance_of(after, now, from, spender) == (AllowanceValue {
                amount: (held.amount - amount) as i128,
                expiration_ledger: held.expiration_ledger,
            })
            &&& from != to ==> balance_of(after, now, from) == balance_of(entries, now, from)
                - amount
            &&& from != to ==> balance_of(after, now, to) == balance_of(entries, now, to) + amount
            &&& from == to ==> balance_of(after, now, from) == balance_of(entries, now, from)
            &&& other != from && other != to ==> balance_of(after, now, other) == balance_of(
                entries,
                now,
                other,
            )
        }),
{
}

/// A transfer that succeeded, followed by a transfer of the same amount
/// back, restores both balances. The second invocation carries the
/// authorization of the account that pays back, and runs before the leases
/// that the first renewed can lapse.
pub proof fn transfer_round_trip(
    entries: Entries,
    first: Invocation,
    second: Invocation,
    a: Identity,
    b: Identity,
    amount: i128,
)
    requires
        valid(entries),
        transfer_result(entries, first, a, b, amount) is Ok,
        second.authorizes(b),
        first.sequence <= second.sequence <= first.sequence + LEASE_LIFETIME_THRESHOLD,
    ensures
        ({
            let there = after_transfer(entries, first, a, b, amount);
            let back = after_transfer(there, second, b, a, amount);
            &&& transfer_result(there, second, b, a, amount) is Ok
            &&& balance_of(back, second.sequence, a) == balance_of(entries, first.sequence, a)
            &&& balance_of(back, second.sequence, b) == balance_of(entries, first.sequence, b)
        }),
{
    let now = first.sequence;
    let later = second.sequence;
    let key_a = DataKey::Balance(a);
    let key_b = DataKey::Balance(b);
    let s1 = instance_renewed(entries, now);
    let s2 = after_spend_balance(s1, now, a, amount);
    let there = after_receive_balance(s2, now, b, amount);
    assert(there == after_transfer(entries, first, a, b, amount));
    let t1 = instance_renewed(there, later);
    let t2 = after_spend_balance(t1, later, b, amount);
    let back = after_receive_balance(t2, later, a, amount);

    lemma_instance_renewed_keeps_valid(entries, now);
    lemma_balance_steps_keep_valid(s1, now, a, amount);
    lemma_balance_steps_keep_valid(s2, now, b, amount);
    lemma_instance_renewed_keeps_valid(there, later);
    lemma_balance_steps_keep_valid(t1, later, b, amount);

    lemma_instance_renewed_frame(entries, now, key_a, now);
    lemma_instance_renewed_frame(entries, now, key_b, now);
    let held_a = balance_of(entries, now, a);
    let held_b = balance_of(entries, now, b);
    assert(balance_of(s1, now, a) == held_a);
    assert(balance_of(s1, now, b) == held_b);

    if a == b {
        lemma_debit(s1, now, a, amount, now);
        lemma_credit(s2, now, a, amount, later);
        assert(balance_of(there, later, a) == held_a);
        lemma_instance_renewed_frame(there, later, key_a, later);
        assert(balance_of(t1, later, a) == held_a);
        lemma_debit(t1, later, a, amount, later);
        assert(balance_of(t2, later, a) == held_a - amount);
        lemma_credit(t2, later, a, amount, later);
    } else {
        lemma_debit(s1, now, a, amount, later);
        lemma_balance_steps_frame(s1, now, a, amount, key_b, now);
        assert(balance_of(s2, now, b) == held_b);
        lemma_credit(s2, now, b, amount, later);
        lemma_balance_steps_frame(s2, now, b, amount, key_a, later);
        assert(balance_of(there, later, a) == held_a - amount);
        assert(balance_of(there, later, b) == held_b + amount);
        lemma_instance_renewed_frame(there, later, key_a, later);
        lemma_instance_renewed_frame(there, later, key_b, later);
        assert(balance_of(t1, later, b) == held_b + amount);
        lemma_debit(t1, later, b, amount, later);
        lemma_balance_steps_frame(t1, later, b, amount, key_a, later);
        assert(balance_of(t2, later, a) == held_a - amount);
        assert(balance_of(t2, later, b) == held_b);
        lemma_credit(t2, later, a, amount, later);
        lemma_balance_steps_frame(t2, later, a, amount, key_b, later);
    }
    assert(back == after_transfer(there, second, b, a, amount));
}

proof fn lemma_looked_at_reads_alike(entries: Entries, now: u32, first: DataKey, second: DataKey)
    ensures
        same_data(instance_renewed(entries, now), entries, now),
        same_data(touched(instance_renewed(entries, now), now, first), entries, now),
        same_data(
            touched(touched(instance_renewed(entries, now), now, first), now, second),
            entries,
            now,
        ),
        valid(entries) ==> valid(
            touched(touched(instance_renewed(entries, now), now, first), now, second),
        ),
{
    let s1 = instance_renewed(entries, now);
    let s2 = touched(s1, now, first);
    let s3 = touched(s2, now, second);
    lemma_instance_renewed_keeps_data(entries, now);
    assert forall|key: DataKey| #[trigger]
        value_at(s1, now, key) == value_at(entries, now, key) by {
        assert(value_at(entries, now, key) == value_at(s1, now, key));
    }
    assert forall|key: DataKey| #[trigger]
        value_at(s2, now, key) == value_at(entries, now, key) by {
        lemma_touched_frame(s1, now, first, key, now);
        assert(value_at(entries, now, key) == value_at(s1, now, key));
    }
    assert forall|key: DataKey| #[trigger]
        value_at(s3, now, key) == value_at(entries, now, key) by {
        lemma_touched_frame(s2, now, second, key, now);
        lemma_touched_frame(s1, now, first, key, now);
        assert(value_at(entries, now, key) == value_at(s1, now, key));
    }
    if valid(entries) {
        lemma_instance_renewed_keeps_valid(entries, now);
        lemma_touched_keeps_valid(s1, now, first);
        lemma_touched_keeps_valid(s2, now, second);
    }
}

proof fn lemma_mint_read_reads_alike(entries: Entries, now: u32, key: DataKey)
    ensures
        same_data(mint_read(entries, now), entries, now),
        same_data(touched(mint_read(entries, now), now, key), entries, now),
{
    let r1 = touched(entries, now, DataKey::Admin);
    let r2 = instance_renewed(r1, now);
    let r3 = touched(r2, now, DataKey::PaymentAsset);
    let r4 = touched(r3, now, DataKey::Recipient);
    let r5 = touched(r4, now, DataKey::SpotPrice);
    lemma_instance_renewed_keeps_data(r1, now);
    assert forall|other: DataKey| #[trigger] value_at(r5, now, other) == value_at(
        entries,
        now,
        other,
    ) by {
        lemma_touched_frame(entries, now, DataKey::Admin, other, now);
        assert(value_at(r1, now, other) == value_at(r2, now, other));
        lemma_touched_frame(r2, now, DataKey::PaymentAsset, other, now);
        lemma_touched_frame(r3, now, DataKey::Recipient, other, now);
        lemma_touched_frame(r4, now, DataKey::SpotPrice, other, now);
    }
    assert forall|other: DataKey| #[trigger] value_at(touched(r5, now, key), now, other)
        == value_at(entries, now, other) by {
        lemma_touched_frame(r5, now, key, other, now);
        assert(value_at(r5, now, other) == value_at(entries, now, other));
    }
}

/// A transfer, a burn or a delegated burn that fails, for whatever reason,
/// changes nothing that a reader sees: no balance and no allowance. At most
/// leases were renewed.
pub proof fn failed_transfer_or_burn_changes_no_value(
    entries: Entries,
    ctx: Invocation,
    spender: Identity,
    from: Identity,
    to: Identity,
    amount: i128,
)
    ensures
        transfer_result(entries, ctx, from, to, amount) is Err ==> same_data(
            after_transfer(entries, ctx, from, to, amount),
            entries,
            ctx.sequence,
        ),
        burn_result(entries, ctx, from, amount) is Err ==> same_data(
            after_burn(entries, ctx, from, amount),
            entries,
            ctx.sequence,
        ),
        burn_from_result(entries, ctx, spender, from, amount) is Err ==> same_data(
            after_burn_from(entries, ctx, spender, from, amount),
            entries,
            ctx.sequence,
        ),
{
    let now = ctx.sequence;
    lemma_looked_at_reads_alike(entries, now, DataKey::Balance(from), DataKey::Balance(to));
    lemma_looked_at_reads_alike(
        entries,
        now,
        DataKey::Allowance(from, spender),
        DataKey::Balance(from),
    );
}

/// An approval, a mint, `initialize` or the setting of a parameter that
/// fails changes nothing that a reader sees. At most leases were renewed.
pub proof fn failed_exchange_operation_changes_no_value(
    entries: Entries,
    ctx: Invocation,
    a: Identity,
    b: Identity,
    c: Identity,
    amount: i128,
    expiration_ledger: u32,
    metadata: TokenMetadata,
    payment: PaymentStatus,
    key: DataKey,
    value: Value,
)
    ensures
        approve_result(ctx, a, b, amount, expiration_ledger) is Err ==> after_approve(
            entries,
            ctx,
            a,
            b,
            amount,
            expiration_ledger,
        ) == entries,
        initialize_result(entries, ctx, metadata.decimal, amount) is Err ==> after_initialize(
            entries,
            ctx,
            a,
            metadata,
            b,
            c,
            amount,
        ) == entries,
        mint_result(entries, ctx, a, amount, payment) is Err ==> same_data(
            after_mint(entries, ctx, a, amount, payment),
            entries,
            ctx.sequence,
        ),
        require_admin_result(entries, ctx) is Err ==> same_data(
            after_admin_write(entries, ctx, key, value),
            entries,
            ctx.sequence,
        ),
        set_spot_price_result(entries, ctx, amount) is Err ==> same_data(
            after_set_spot_price(entries, ctx, amount),
            entries,
            ctx.sequence,
        ),
{
    let now = ctx.sequence;
    lemma_mint_read_reads_alike(entries, now, DataKey::Balance(a));
    assert forall|other: DataKey| #[trigger] value_at(
        touched(entries, now, DataKey::Admin),
        now,
        other,
    ) == value_at(entries, now, other) by {
        lemma_touched_frame(entries, now, DataKey::Admin, other, now);
    }
}

/// A transfer of more than the sender holds fails and changes no balance.
pub proof fn transfer_beyond_balance_fails(
    entries: Entries,
    ctx: Invocation,
    from: Identity,
    to: Identity,
    amount: i128,
)
    requires
        valid(entries),
        amount > balance_of(entries, ctx.sequence, from),
    ensures
        transfer_result(entries, ctx, from, to, amount) is Err,
        ctx.authorizes(from) ==> transfer_result(entries, ctx, from, to, amount) == Err::<
            Event,
            Error,
        >(Error::InsufficientBalance),
        same_balances(after_transfer(entries, ctx, from, to, amount), entries, ctx.sequence),
{
    lemma_instance_renewed_keeps_data(entries, ctx.sequence);
    failed_transfer_or_burn_changes_no_value(entries, ctx, from, from, to, amount);
}

/// A burn of more than the holder has fails and changes no balance.
pub proof fn burn_beyond_balance_fails(
    entries: Entries,
    ctx: Invocation,
    from: Identity,
    amount: i128,
)
    requires
        valid(entries),
        amount > balance_of(entries, ctx.sequence, from),
    ensures
        burn_result(entries, ctx, from, amount) is Err,
        ctx.authorizes(from) ==> burn_result(entries, ctx, from, amount) == Err::<Event, Error>(
            Error::InsufficientBalance,
        ),
        same_balances(after_burn(entries, ctx, from, amount), entries, ctx.sequence),
{
}

/// A delegated transfer of more than the owner holds, or of more than the
/// spender was allowed, fails and changes no balance.
pub proof fn transfer_from_beyond_means_fails(
    entries: Entries,
    ctx: Invocation,
    spender: Identity,
    from: Identity,
    to: Identity,
    amount: i128,
)
    requires
        valid(entries),
        amount > balance_of(entries, ctx.sequence, from) || amount > allowance_of(
            entries,
            ctx.sequence,
            from,
            spender,
        ).amount,
    ensures
        transfer_from_result(entries, ctx, spender, from, to, amount) is Err,
        same_balances(
            after_transfer_from(entries, ctx, spender, from, to, amount),
            entries,
            ctx.sequence,
        ),
{
}

/// A delegated burn of more than the owner holds, or of more than the
/// spender was allowed, fails and changes neither a balance nor the
/// allowance.
pub proof fn burn_from_beyond_means_fails(
    entries: Entries,
    ctx: Invocation,
    spender: Identity,
    from: Identity,
    amount: i128,
)
    requires
        valid(entries),
        amount > balance_of(entries, ctx.sequence, from) || amount > allowance_of(
            entries,
            ctx.sequence,
            from,
            spender,
        ).amount,
    ensures
        burn_from_result(entries, ctx, spender, from, amount) is Err,
        same_balances(
            after_burn_from(entries, ctx, spender, from, amount),
            entries,
            ctx.sequence,
        ),
        allowance_of(
            after_burn_from(entries, ctx, spender, from, amount),
            ctx.sequence,
            from,
            spender,
        ) == allowance_of(entries, ctx.sequence, from, spender),
{
    lemma_instance_renewed_keeps_data(entries, ctx.sequence);
    failed_transfer_or_burn_changes_no_value(entries, ctx, spender, from, from, amount);
}

/// Where the allowance suffices and the balance does not, a delegated
/// transfer fails with `InsufficientBalance` after the allowance was spent:
/// the allowance is reduced, and no balance has changed.
pub proof fn transfer_from_keeps_spent_allowance(
    entries: Entries,
    ctx: Invocation,
    spender: Identity,
    from: Identity,
    to: Identity,
    amount: i128,
)
    requires
        valid(entries),
        ctx.authorizes(spender),
        0 <= amount <= allowance_of(entries, ctx.sequence, from, spender).amount,
        allowance_of(entries, ctx.sequence, from, spender).expiration_ledger >= ctx.sequence,
        amount > balance_of(entries, ctx.sequence, from),
    ensures
        ({
            let now = ctx.sequence;
            let after = after_transfer_from(entries, ctx, spender, from, to, amount);
            &&& transfer_from_result(entries, ctx, spender, from, to, amount) == Err::<
                Event,
                Error,
            >(Error::InsufficientBalance)
            &&& allowance_of(after, now, from, spender).amount == allowance_of(
                entries,
                now,
                from,
                spender,
            ).amount - amount
            &&& same_balances(after, entries, now)
        }),
{
}

/// After an approval of `n` until `expiration_ledger`, spending `k` of it,
/// with `k` at most `n`, leaves `n - k` stored at the same expiration, and
/// any spend of more than that fails with `InsufficientAllowance`. All three
/// run before the allowance expires and before its lease can lapse.
pub proof fn approve_then_spend(
    entries: Entries,
    ctx: Invocation,
    owner: Identity,
    spender: Identity,
    n: i128,
    expiration_ledger: u32,
    k: i128,
    spent_at: u32,
    more: i128,
    again_at: u32,
)
    requires
        valid(entries),
        approve_result(ctx, owner, spender, n, expiration_ledger) is Ok,
        0 <= k <= n,
        ctx.sequence <= spent_at <= ctx.sequence + LEASE_LIFETIME_THRESHOLD,
        spent_at <= again_at <= spent_at + LEASE_LIFETIME_THRESHOLD,
        again_at <= expiration_ledger,
        more > n - k,
    ensures
        ({
            let approved = after_approve(entries, ctx, owner, spender, n, expiration_ledger);
            let spent = after_spend_allowance(approved, spent_at, owner, spender, k);
            &&& spend_allowance_result(approved, spent_at, owner, spender, k) is Ok
            &&& allowance_of(spent, spent_at, owner, spender) == (AllowanceValue {
                amount: (n - k) as i128,
                expiration_ledger,
            })
            &&& spend_allowance_result(spent, again_at, owner, spender, more) == Err::<(), Error>(
                Error::InsufficientAllowance,
            )
        }),
{
}

/// An allowance whose expiration lies before `now` cannot be spent,
/// whatever amount of it is left and whatever amount, not negative, is
/// asked for.
pub proof fn expired_allowance_is_refused(
    entries: Entries,
    now: u32,
    from: Identity,
    spender: Identity,
    amount: i128,
)
    requires
        amount >= 0,
        allowance_of(entries, now, from, spender).expiration_ledger < now,
    ensures
        spend_allowance_result(entries, now, from, spender, amount) == Err::<(), Error>(
            Error::AllowanceExpired,
        ),
        allowance_of(after_spend_allowance(entries, now, from, spender, amount), now, from, spender)
            == allowance_of(entries, now, from, spender),
{
}

/// A delegated transfer or burn on an allowance whose expiration lies
/// before the invocation's position fails with `AllowanceExpired` and
/// changes no balance, once the spender has authorized it and the amount is
/// not negative.
pub proof fn expired_allowance_moves_nothing(
    entries: Entries,
    ctx: Invocation,
    spender: Identity,
    from: Identity,
    to: Identity,
    amount: i128,
)
    requires
        ctx.authorizes(spender),
        amount >= 0,
        allowance_of(entries, ctx.sequence, from, spender).expiration_ledger < ctx.sequence,
    ensures
        transfer_from_result(entries, ctx, spender, from, to, amount) == Err::<Event, Error>(
            Error::AllowanceExpired,
        ),
        burn_from_result(entries, ctx, spender, from, amount) == Err::<Event, Error>(
            Error::AllowanceExpired,
        ),
        same_balances(
            after_transfer_from(entries, ctx, spender, from, to, amount),
            entries,
            ctx.sequence,
        ),
        same_balances(after_burn_from(entries, ctx, spender, from, amount), entries, ctx.sequence),
{
    let now = ctx.sequence;
    let s1 = instance_renewed(entries, now);
    lemma_instance_renewed_frame(entries, now, DataKey::Allowance(from, spender), now);
    assert forall|account: Identity| #[trigger]
        balance_of(after_spend_allowance(s1, now, from, spender, amount), now, account)
            == balance_of(entries, now, account) by {
        lemma_instance_renewed_frame(entries, now, DataKey::Balance(account), now);
        lemma_allowance_steps_frame(
            s1,
            now,
            from,
            spender,
            amount,
            0,
            DataKey::Balance(account),
            now,
        );
    }
}

/// A mint orders a payment of exactly `MARKUP_FACTOR` times the grams times
/// the spot price, from the buyer to the recipient in the payment asset, and
/// credits nothing while the payment is pending.
pub proof fn mint_orders_marked_up_price(
    entries: Entries,
    ctx: Invocation,
    to: Identity,
    grams: i128,
)
    requires
        valid(entries),
        mint_result(entries, ctx, to, grams, PaymentStatus::Pending) is Ok,
    ensures
        ({
            let now = ctx.sequence;
            let price = spot_price_of(entries, now)->0;
            &&& mint_result(entries, ctx, to, grams, PaymentStatus::Pending)
                matches Ok(MintStep::PaymentDue(order))
            &&& order.amount == MARKUP_FACTOR * grams * price
            &&& order.payer == to
            &&& Some(order.recipient) == recipient_of(entries, now)
            &&& Some(order.asset) == payment_asset_of(entries, now)
            &&& same_balances(
                after_mint(entries, ctx, to, grams, PaymentStatus::Pending),
                entries,
                now,
            )
        }),
{
}

/// A mint whose payment is settled credits the buyer with exactly
/// `UNIT_SCALE` tokens for each gram, and reports that amount.
pub proof fn mint_credits_scaled_units(
    entries: Entries,
    ctx: Invocation,
    to: Identity,
    grams: i128,
    other: Identity,
)
    requires
        valid(entries),
        mint_result(entries, ctx, to, grams, PaymentStatus::Settled) is Ok,
    ensures
        ({
            let now = ctx.sequence;
            let after = after_mint(entries, ctx, to, grams, PaymentStatus::Settled);
            &&& mint_result(entries, ctx, to, grams, PaymentStatus::Settled)
                matches Ok(MintStep::Minted(Event::Mint { admin, to: credited, amount }))
            &&& amount == grams * UNIT_SCALE
            &&& credited == to
            &&& Some(admin) == admin_of(entries, now)
            &&& valid(after)
            &&& balance_of(after, now, to) == balance_of(entries, now, to) + grams * UNIT_SCALE
            &&& other != to ==> balance_of(after, now, other) == balance_of(entries, now, other)
        }),
{
}

/// Once an instance is initialized, another `initialize` fails with
/// `AlreadyInitialized` and changes nothing, for as long as the
/// administrator's lease cannot have lapsed.
pub proof fn initialize_only_once(
    entries: Entries,
    first: Invocation,
    admin: Identity,
    metadata: TokenMetadata,
    recipient: Identity,
    token: Identity,
    price: i128,
    second: Invocation,
    other_admin: Identity,
    other_metadata: TokenMetadata,
    other_recipient: Identity,
    other_token: Identity,
    other_price: i128,
)
    requires
        valid(entries),
        initialize_result(entries, first, metadata.decimal, price) is Ok,
        first.sequence <= second.sequence <= first.sequence + LEASE_LIFETIME_THRESHOLD,
    ensures
        ({
            let set_up = after_initialize(entries, first, admin, metadata, recipient, token, price);
            &&& valid(set_up)
            &&& initialize_result(set_up, second, other_metadata.decimal, other_price) == Err::<
                (),
                Error,
            >(Error::AlreadyInitialized)
            &&& after_initialize(
                set_up,
                second,
                other_admin,
                other_metadata,
                other_recipient,
                other_token,
                other_price,
            ) == set_up
        }),
{
}

proof fn lemma_balance_steps_keep_settings(
    entries: Entries,
    now: u32,
    account: Identity,
    amount: i128,
)
    ensures
        same_settings(after_spend_balance(entries, now, account, amount), entries, now),
        same_settings(after_receive_balance(entries, now, account, amount), entries, now),
{
    lemma_balance_steps_frame(entries, now, account, amount, DataKey::Admin, now);
    lemma_balance_steps_frame(entries, now, account, amount, DataKey::Metadata, now);
    lemma_balance_steps_frame(entries, now, account, amount, DataKey::Recipient, now);
    lemma_balance_steps_frame(entries, now, account, amount, DataKey::PaymentAsset, now);
    lemma_balance_steps_frame(entries, now, account, amount, DataKey::SpotPrice, now);
}

proof fn lemma_allowance_steps_keep_settings(
    entries: Entries,
    now: u32,
    from: Identity,
    spender: Identity,
    amount: i128,
    expiration_ledger: u32,
)
    ensures
        same_settings(after_spend_allowance(entries, now, from, spender, amount), entries, now),
        same_settings(
            after_write_allowance(entries, now, from, spender, amount, expiration_ledger),
            entries,
            now,
        ),
{
    lemma_allowance_steps_frame(
        entries,
        now,
        from,
        spender,
        amount,
        expiration_ledger,
        DataKey::Admin,
        now,
    );
    lemma_allowance_steps_frame(
        entries,
        now,
        from,
        spender,
        amount,
        expiration_ledger,
        DataKey::Metadata,
        now,
    );
    lemma_allowance_steps_frame(
        entries,
        now,
        from,
        spender,
        amount,
        expiration_ledger,
        DataKey::Recipient,
        now,
    );
    lemma_allowance_steps_frame(
        entries,
        now,
        from,
        spender,
        amount,
        expiration_ledger,
        DataKey::PaymentAsset,
        now,
    );
    lemma_allowance_steps_frame(
        entries,
        now,
        from,
        spender,
        amount,
        expiration_ledger,
        DataKey::SpotPrice,
        now,
    );
}

proof fn lemma_renewals_keep_settings(entries: Entries, now: u32)
    ensures
        same_settings(instance_renewed(entries, now), entries, now),
        same_settings(
            instance_renewed(touched(entries, now, DataKey::Admin), now),
            entries,
            now,
        ),
        same_settings(mint_read(entries, now), entries, now),
{
    lemma_instance_renewed_keeps_data(entries, now);
    let r1 = touched(entries, now, DataKey::Admin);
    lemma_touched_frame(entries, now, DataKey::Admin, DataKey::Admin, now);
    lemma_touched_frame(entries, now, DataKey::Admin, DataKey::Metadata, now);
    lemma_touched_frame(entries, now, DataKey::Admin, DataKey::Recipient, now);
    lemma_touched_frame(entries, now, DataKey::Admin, DataKey::PaymentAsset, now);
    lemma_touched_frame(entries, now, DataKey::Admin, DataKey::SpotPrice, now);
    lemma_instance_renewed_keeps_data(r1, now);
    let r2 = instance_renewed(r1, now);
    assert(same_settings(r2, entries, now));
    let r3 = touched(r2, now, DataKey::PaymentAsset);
    lemma_touched_frame(r2, now, DataKey::PaymentAsset, DataKey::Admin, now);
    lemma_touched_frame(r2, now, DataKey::PaymentAsset, DataKey::Metadata, now);
    lemma_touched_frame(r2, now, DataKey::PaymentAsset, DataKey::Recipient, now);
    lemma_touched_frame(r2, now, DataKey::PaymentAsset, DataKey::PaymentAsset, now);
    lemma_touched_frame(r2, now, DataKey::PaymentAsset, DataKey::SpotPrice, now);
    assert(same_settings(r3, entries, now));
    let r4 = touched(r3, now, DataKey::Recipient);
    lemma_touched_frame(r3, now, DataKey::Recipient, DataKey::Admin, now);
    lemma_touched_frame(r3, now, DataKey::Recipient, DataKey::Metadata, now);
    lemma_touched_frame(r3, now, DataKey::Recipient, DataKey::Recipient, now);
    lemma_touched_frame(r3, now, DataKey::Recipient, DataKey::PaymentAsset, now);
    lemma_touched_frame(r3, now, DataKey::Recipient, DataKey::SpotPrice, now);
    assert(same_settings(r4, entries, now));
    lemma_touched_frame(r4, now, DataKey::SpotPrice, DataKey::Admin, now);
    lemma_touched_frame(r4, now, DataKey::SpotPrice, DataKey::Metadata, now);
    lemma_touched_frame(r4, now, DataKey::SpotPrice, DataKey::Recipient, now);
    lemma_touched_frame(r4, now, DataKey::SpotPrice, DataKey::PaymentAsset, now);
    lemma_touched_frame(r4, now, DataKey::SpotPrice, DataKey::SpotPrice, now);
}

/// No operation on balances or allowances, and no mint, changes the
/// administrator, the metadata or an exchange parameter, however it ends.
pub proof fn ledger_operations_keep_settings(
    entries: Entries,
    ctx: Invocation,
    a: Identity,
    b: Identity,
    c: Identity,
    amount: i128,
    expiration_ledger: u32,
    payment: PaymentStatus,
)
    ensures
        same_settings(
            after_approve(entries, ctx, a, b, amount, expiration_ledger),
            entries,
            ctx.sequence,
        ),
        same_settings(after_transfer(entries, ctx, a, b, amount), entries, ctx.sequence),
        same_settings(after_transfer_from(entries, ctx, a, b, c, amount), entries, ctx.sequence),
        same_settings(after_burn(entries, ctx, a, amount), entries, ctx.sequence),
        same_settings(after_burn_from(entries, ctx, a, b, amount), entries, ctx.sequence),
        same_settings(after_mint(entries, ctx, a, amount, payment), entries, ctx.sequence),
{
    let now = ctx.sequence;
    let s1 = instance_renewed(entries, now);
    lemma_renewals_keep_settings(entries, now);
    lemma_allowance_steps_keep_settings(s1, now, a, b, amount, expiration_ledger);
    lemma_balance_steps_keep_settings(s1, now, a, amount);
    let debited = after_spend_balance(s1, now, a, amount);
    lemma_balance_steps_keep_settings(debited, now, b, amount);
    lemma_looked_at_reads_alike(entries, now, DataKey::Balance(a), DataKey::Balance(b));
    assert(same_settings(after_transfer(entries, ctx, a, b, amount), entries, now));
    lemma_allowance_steps_keep_settings(s1, now, b, a, amount, expiration_ledger);
    let spent = after_spend_allowance(s1, now, b, a, amount);
    lemma_balance_steps_keep_settings(spent, now, b, amount);
    lemma_looked_at_reads_alike(entries, now, DataKey::Allowance(b, a), DataKey::Balance(b));
    assert(same_settings(after_burn_from(entries, ctx, a, b, amount), entries, now));
    lemma_balance_steps_keep_settings(after_spend_balance(spent, now, b, amount), now, c, amount);
    assert(same_settings(after_transfer_from(entries, ctx, a, b, c, amount), entries, now));
    match mint_terms(entries, ctx, a, amount) {
        Ok(terms) => {
            lemma_balance_steps_keep_settings(mint_read(entries, now), now, a, terms.tokens);
        },
        Err(_) => {},
    }
}

proof fn lemma_setter(entries: Entries, gated: Entries, now: u32, key: DataKey, value: Value)
    requires
        gated == instance_renewed(touched(entries, now, DataKey::Admin), now),
        same_settings(gated, entries, now),
        key == DataKey::Admin || key == DataKey::Recipient || key == DataKey::PaymentAsset || key
            == DataKey::SpotPrice,
    ensures
        value_at(stored(gated, now, key, value), now, key) == Some(value),
        forall|other: DataKey|
            other != key ==> #[trigger] value_at(stored(gated, now, key, value), now, other)
                == value_at(entries, now, other),
        same_balances(stored(gated, now, key, value), entries, now),
{
    lemma_stored_reads_back(gated, now, key, value);
    assert forall|other: DataKey| other != key implies #[trigger] value_at(
        stored(gated, now, key, value),
        now,
        other,
    ) == value_at(entries, now, other) by {
        lemma_stored_frame(gated, now, key, value, other, now);
        lemma_touched_frame(entries, now, DataKey::Admin, other, now);
        lemma_instance_renewed_keeps_data(touched(entries, now, DataKey::Admin), now);
    }
    assert forall|account: Identity| #[trigger]
        balance_of(stored(gated, now, key, value), now, account) == balance_of(
            entries,
            now,
            account,
        ) by {
        assert(value_at(stored(gated, now, key, value), now, DataKey::Balance(account))
            == value_at(entries, now, DataKey::Balance(account)));
    }
}

/// Setting the administrator, the recipient, the payment asset or the spot
/// price overwrites that one setting and leaves the others, and every
/// balance, as they were.
pub proof fn setters_overwrite_one_setting(
    entries: Entries,
    ctx: Invocation,
    id: Identity,
    price: i128,
)
    requires
        require_admin_result(entries, ctx) is Ok,
        price >= 0,
    ensures
        ({
            let now = ctx.sequence;
            let after = after_admin_write(entries, ctx, DataKey::Admin, Value::Account(id));
            &&& admin_of(after, now) == Some(id)
            &&& metadata_of(after, now) == metadata_of(entries, now)
            &&& recipient_of(after, now) == recipient_of(entries, now)
            &&& payment_asset_of(after, now) == payment_asset_of(entries, now)
            &&& spot_price_of(after, now) == spot_price_of(entries, now)
            &&& same_balances(after, entries, now)
        }),
        ({
            let now = ctx.sequence;
            let after = after_admin_write(entries, ctx, DataKey::Recipient, Value::Account(id));
            &&& recipient_of(after, now) == Some(id)
            &&& admin_of(after, now) == admin_of(entries, now)
            &&& metadata_of(after, now) == metadata_of(entries, now)
            &&& payment_asset_of(after, now) == payment_asset_of(entries, now)
            &&& spot_price_of(after, now) == spot_price_of(entries, now)
            &&& same_balances(after, entries, now)
        }),
        ({
            let now = ctx.sequence;
            let after = after_admin_write(entries, ctx, DataKey::PaymentAsset, Value::Account(id));
            &&& payment_asset_of(after, now) == Some(id)
            &&& admin_of(after, now) == admin_of(entries, now)
            &&& metadata_of(after, now) == metadata_of(entries, now)
            &&& recipient_of(after, now) == recipient_of(entries, now)
            &&& spot_price_of(after, now) == spot_price_of(entries, now)
            &&& same_balances(after, entries, now)
        }),
        ({
            let now = ctx.sequence;
            let after = after_set_spot_price(entries, ctx, price);
            &&& spot_price_of(after, now) == Some(price)
            &&& admin_of(after, now) == admin_of(entries, now)
            &&& metadata_of(after, now) == metadata_of(entries, now)
            &&& recipient_of(after, now) == recipient_of(entries, now)
            &&& payment_asset_of(after, now) == payment_asset_of(entries, now)
            &&& same_balances(after, entries, now)
        }),
{
    let now = ctx.sequence;
    let gated = after_require_admin(entries, ctx);
    assert(gated == instance_renewed(touched(entries, now, DataKey::Admin), now));
    lemma_renewals_keep_settings(entries, now);
    lemma_setter(entries, gated, now, DataKey::Admin, Value::Account(id));
    lemma_setter(entries, gated, now, DataKey::Recipient, Value::Account(id));
    lemma_setter(entries, gated, now, DataKey::PaymentAsset, Value::Account(id));
    lemma_setter(entries, gated, now, DataKey::SpotPrice, Value::Amount(price));
}

/// A negative amount is refused with `NegativeAmount`, and nothing is
/// touched, by every operation on amounts that its principal has
/// authorized.
pub proof fn negative_amount_is_refused(
    entries: Entries,
    ctx: Invocation,
    principal: Identity,
    from: Identity,
    to: Identity,
    amount: i128,
    expiration_ledger: u32,
)
    requires
        amount < 0,
        ctx.authorizes(principal),
    ensures
        approve_result(ctx, principal, to, amount, expiration_ledger) == Err::<Event, Error>(
            Error::NegativeAmount,
        ),
        after_approve(entries, ctx, principal, to, amount, expiration_ledger) == entries,
        transfer_result(entries, ctx, principal, to, amount) == Err::<Event, Error>(
            Error::NegativeAmount,
        ),
        after_transfer(entries, ctx, principal, to, amount) == entries,
        transfer_from_result(entries, ctx, principal, from, to, amount) == Err::<Event, Error>(
            Error::NegativeAmount,
        ),
        after_transfer_from(entries, ctx, principal, from, to, amount) == entries,
        burn_result(entries, ctx, principal, amount) == Err::<Event, Error>(Error::NegativeAmount),
        after_burn(entries, ctx, principal, amount) == entries,
        burn_from_result(entries, ctx, principal, from, amount) == Err::<Event, Error>(
            Error::NegativeAmount,
        ),
        after_burn_from(entries, ctx, principal, from, amount) == entries,
{
}

/// A negative number of grams, and a negative spot price, are refused with
/// `NegativeAmount` before anything else is looked at, and nothing is
/// touched. A fresh instance cannot be initialized at a negative price.
pub proof fn negative_purchase_or_price_is_refused(
    entries: Entries,
    ctx: Invocation,
    to: Identity,
    amount: i128,
    payment: PaymentStatus,
    metadata: TokenMetadata,
    recipient: Identity,
    token: Identity,
)
    requires
        amount < 0,
    ensures
        initialize_result(entries, ctx, metadata.decimal, amount) is Err,
        admin_of(entries, ctx.sequence) is None && metadata.decimal <= 255 ==> initialize_result(
            entries,
            ctx,
            metadata.decimal,
            amount,
        ) == Err::<(), Error>(Error::NegativeAmount),
        after_initialize(entries, ctx, to, metadata, recipient, token, amount) == entries,
        mint_result(entries, ctx, to, amount, payment) == Err::<MintStep, Error>(
            Error::NegativeAmount,
        ),
        after_mint(entries, ctx, to, amount, payment) == entries,
        set_spot_price_result(entries, ctx, amount) == Err::<(), Error>(Error::NegativeAmount),
        after_set_spot_price(entries, ctx, amount) == entries,
{
}

/// Where one balance changes by `delta` and no other changes, the sum over
/// a list of distinct accounts changes by `delta` if the account is on the
/// list, and stays otherwise.
pub proof fn sum_follows_one_balance(
    before: Entries,
    after: Entries,
    now: u32,
    accounts: Seq<Identity>,
    account: Identity,
    delta: int,
)
    requires
        accounts.no_duplicates(),
        balance_of(after, now, account) == balance_of(before, now, account) + delta,
        forall|other: Identity|
            other != account ==> #[trigger] balance_of(after, now, other) == balance_of(
                before,
                now,
                other,
            ),
    ensures
        sum_of_balances(after, now, accounts) == sum_of_balances(before, now, accounts) + (
        if accounts.contains(account) {
            delta
        } else {
            0
        }),
    decreases accounts.len(),
{
    if accounts.len() > 0 {
        let rest = accounts.drop_last();
        let last = accounts.last();
        assert(rest.no_duplicates());
        sum_follows_one_balance(before, after, now, rest, account, delta);
        if last == account {
            assert(!rest.contains(account)) by {
                if rest.contains(account) {
                    let i = choose|i: int| 0 <= i < rest.len() && rest[i] == account;
                    assert(accounts[i] == accounts[accounts.len() - 1]);
                }
            }
            assert(accounts[accounts.len() - 1] == account);
        } else {
            if accounts.contains(account) {
                let i = choose|i: int| 0 <= i < accounts.len() && accounts[i] == account;
                assert(rest[i] == account);
            }
            if rest.contains(account) {
                let i = choose|i: int| 0 <= i < rest.len() && rest[i] == account;
                assert(accounts[i] == account);
            }
        }
    }
}

/// A transfer, however it ends, leaves the sum over any list of distinct
/// accounts that holds both parties as it was: tokens are neither made nor
/// lost.
pub proof fn transfer_conserves_the_sum(
    entries: Entries,
    ctx: Invocation,
    from: Identity,
    to: Identity,
    amount: i128,
    accounts: Seq<Identity>,
)
    requires
        valid(entries),
        accounts.no_duplicates(),
        accounts.contains(from),
        accounts.contains(to),
    ensures
        sum_of_balances(after_transfer(entries, ctx, from, to, amount), ctx.sequence, accounts)
            == sum_of_balances(entries, ctx.sequence, accounts),
{
    let now = ctx.sequence;
    let after = after_transfer(entries, ctx, from, to, amount);
    if transfer_result(entries, ctx, from, to, amount) is Ok {
        transfer_moves_amount(entries, ctx, from, to, amount, from);
        if from != to {
            let debited = after_spend_balance(instance_renewed(entries, now), now, from, amount);
            assert forall|other: Identity| other != from implies #[trigger] balance_of(
                debited,
                now,
                other,
            ) == balance_of(entries, now, other) by {
                lemma_instance_renewed_frame(entries, now, DataKey::Balance(other), now);
                lemma_balance_steps_frame(
                    instance_renewed(entries, now),
                    now,
                    from,
                    amount,
                    DataKey::Balance(other),
                    now,
                );
            }
            lemma_instance_renewed_frame(entries, now, DataKey::Balance(from), now);
            lemma_debit(instance_renewed(entries, now), now, from, amount, now);
            sum_follows_one_balance(entries, debited, now, accounts, from, -amount);
            assert forall|other: Identity| other != to implies #[trigger] balance_of(
                after,
                now,
                other,
            ) == balance_of(debited, now, other) by {
                lemma_balance_steps_frame(debited, now, to, amount, DataKey::Balance(other), now);
            }
            lemma_credit(debited, now, to, amount, now);
            sum_follows_one_balance(debited, after, now, accounts, to, amount as int);
        } else {
            assert forall|other: Identity| other != from implies #[trigger] balance_of(
                after,
                now,
                other,
            ) == balance_of(entries, now, other) by {
                transfer_moves_amount(entries, ctx, from, to, amount, other);
            }
            sum_follows_one_balance(entries, after, now, accounts, from, 0);
        }
    } else {
        failed_transfer_or_burn_changes_no_value(entries, ctx, from, from, to, amount);
        sum_follows_one_balance(entries, after, now, accounts, from, 0);
    }
}

/// A burn that succeeds lowers the sum over any list of distinct accounts
/// that holds the holder by the amount burned.
pub proof fn burn_lowers_the_sum(
    entries: Entries,
    ctx: Invocation,
    from: Identity,
    amount: i128,
    accounts: Seq<Identity>,
)
    requires
        valid(entries),
        accounts.no_duplicates(),
        accounts.contains(from),
        burn_result(entries, ctx, from, amount) is Ok,
    ensures
        sum_of_balances(after_burn(entries, ctx, from, amount), ctx.sequence, accounts)
            == sum_of_balances(entries, ctx.sequence, accounts) - amount,
{
    sum_follows_one_balance(
        entries,
        after_burn(entries, ctx, from, amount),
        ctx.sequence,
        accounts,
        from,
        -amount,
    );
}

/// A mint whose payment is settled raises the sum over any list of
/// distinct accounts that holds the buyer by the tokens minted.
pub proof fn mint_raises_the_sum(
    entries: Entries,
    ctx: Invocation,
    to: Identity,
    grams: i128,
    accounts: Seq<Identity>,
)
    requires
        valid(entries),
        accounts.no_duplicates(),
        accounts.contains(to),
        mint_result(entries, ctx, to, grams, PaymentStatus::Settled) is Ok,
    ensures
        sum_of_balances(
            after_mint(entries, ctx, to, grams, PaymentStatus::Settled),
            ctx.sequence,
            accounts,
        ) == sum_of_balances(entries, ctx.sequence, accounts) + grams * UNIT_SCALE,
{
    mint_credits_scaled_units(entries, ctx, to, grams, to);
    assert forall|other: Identity| other != to implies #[trigger] balance_of(
        after_mint(entries, ctx, to, grams, PaymentStatus::Settled),
        ctx.sequence,
        other,
    ) == balance_of(entries, ctx.sequence, other) by {
        mint_credits_scaled_units(entries, ctx, to, grams, other);
    }
    sum_follows_one_balance(
        entries,
        after_mint(entries, ctx, to, grams, PaymentStatus::Settled),
        ctx.sequence,
        accounts,
        to,
        grams * UNIT_SCALE,
    );
}

} // verus!
