//! The keys each operation works on. An operation reads and writes under
//! its own keys only, so a host can hand the ledger just those entries and
//! write just those back.

use vstd::prelude::*;
use crate::allowance::{
    after_spend_allowance, after_write_allowance, lemma_allowance_steps_agree,
    lemma_allowance_steps_frame, spend_allowance_result,
};
use crate::balance::{
    after_receive_balance, after_spend_balance, lemma_balance_steps_agree,
    lemma_balance_steps_frame, receive_balance_result, spend_balance_result,
};
use crate::contract::{
    after_admin_write, after_approve, after_burn, after_burn_from, after_initialize, after_mint,
    after_require_admin, after_transfer, after_transfer_from, burn_from_result, burn_result,
    initialize_result, instance_renewed, lemma_instance_renewed_frame,
    lemma_instance_renewed_keeps_data, mint_read, mint_result, mint_terms, require_admin_result,
    transfer_from_result, transfer_result, PaymentStatus,
};
use crate::identity::Identity;
use crate::invocation::Invocation;
use crate::lease::{
    lemma_steps_agree, lemma_stored_frame, lemma_touched_frame, stored, touched, value_at,
    Entries,
};
use crate::storage_types::{DataKey, TokenMetadata, Value};

verus! {

/// A call of the token, as far as its keys depend on it.
#[derive(Clone, Copy, Debug, PartialEq, Eq, Structural)]
pub enum Operation {
    Initialize,
    Mint { to: Identity },
    SetAdmin,
    SetRecipientAddress,
    SetTokenAddress,
    SetSpotPricePerGram,
    GetRecipientAddress,
    GetTokenAddress,
    GetSpotPricePerGram,
    Allowance { from: Identity, spender: Identity },
    Approve { from: Identity, spender: Identity },
    Balance { id: Identity },
    Transfer { from: Identity, to: Identity },
    TransferFrom { spender: Identity, from: Identity, to: Identity },
    Burn { from: Identity },
    BurnFrom { spender: Identity, from: Identity },
    Metadata,
}

/// The keys that `operation` works on.
pub open spec fn footprint_of(operation: Operation) -> Set<DataKey> {
    match operation {
        Operation::Initialize => set![
            DataKey::Admin,
            DataKey::Metadata,
            DataKey::PaymentAsset,
            DataKey::Recipient,
            DataKey::SpotPrice
        ],
        Operation::Mint { to } => set![
            DataKey::Admin,
            DataKey::Metadata,
            DataKey::PaymentAsset,
            DataKey::Recipient,
            DataKey::SpotPrice,
            DataKey::Balance(to)
        ],
        Operation::SetAdmin => set![DataKey::Admin, DataKey::Metadata],
        Operation::SetRecipientAddress | Operation::GetRecipientAddress => set![
            DataKey::Admin,
            DataKey::Metadata,
            DataKey::Recipient
        ],
        Operation::SetTokenAddress | Operation::GetTokenAddress => set![
            DataKey::Admin,
            DataKey::Metadata,
            DataKey::PaymentAsset
        ],
        Operation::SetSpotPricePerGram | Operation::GetSpotPricePerGram => set![
            DataKey::Admin,
            DataKey::Metadata,
            DataKey::SpotPrice
        ],
        Operation::Allowance { from, spender } | Operation::Approve { from, spender } => set![
            DataKey::Admin,
            DataKey::Metadata,
            DataKey::Allowance(from, spender)
        ],
        Operation::Balance { id } => set![DataKey::Admin, DataKey::Metadata, DataKey::Balance(id)],
        Operation::Transfer { from, to } => set![
            DataKey::Admin,
            DataKey::Metadata,
            DataKey::Balance(from),
            DataKey::Balance(to)
        ],
        Operation::TransferFrom { spender, from, to } => set![
            DataKey::Admin,
            DataKey::Metadata,
            DataKey::Allowance(from, spender),
            DataKey::Balance(from),
            DataKey::Balance(to)
        ],
        Operation::Burn { from } => set![DataKey::Admin, DataKey::Metadata, DataKey::Balance(from)],
        Operation::BurnFrom { spender, from } => set![
            DataKey::Admin,
            DataKey::Metadata,
            DataKey::Allowance(from, spender),
            DataKey::Balance(from)
        ],
        Operation::Metadata => set![DataKey::Metadata],
    }
}

/// Two stores read the same at `now` under every key of `keys`.
pub open spec fn agree_on(left: Entries, right: Entries, keys: Set<DataKey>, now: u32) -> bool {
    forall|key: DataKey|
        keys.contains(key) ==> #[trigger] value_at(left, now, key) == value_at(right, now, key)
}

/// Outside `keys` nothing has changed: at no position does a reader see
/// another value in `after` than in `before`.
pub open spec fn untouched_outside(after: Entries, before: Entries, keys: Set<DataKey>) -> bool {
    forall|key: DataKey, at: u32|
        !keys.contains(key) ==> #[trigger] value_at(after, at, key) == value_at(before, at, key)
}

fn instance_keys() -> (keys: Vec<DataKey>)
    ensures
        keys@ == seq![DataKey::Admin, DataKey::Metadata],
{
    let mut keys: Vec<DataKey> = Vec::new();
    keys.push(DataKey::Admin);
    keys.push(DataKey::Metadata);
    assert(keys@ =~= seq![DataKey::Admin, DataKey::Metadata]);
    keys
}

fn exchange_keys() -> (keys: Vec<DataKey>)
    ensures
        keys@ == seq![
            DataKey::Admin,
            DataKey::Metadata,
            DataKey::PaymentAsset,
            DataKey::Recipient,
            DataKey::SpotPrice
        ],
{
    let mut keys = instance_keys();
    keys.push(DataKey::PaymentAsset);
    keys.push(DataKey::Recipient);
    keys.push(DataKey::SpotPrice);
    assert(keys@ =~= seq![
        DataKey::Admin,
        DataKey::Metadata,
        DataKey::PaymentAsset,
        DataKey::Recipient,
        DataKey::SpotPrice
    ]);
    keys
}

/// Lists the keys of [`footprint_of`], each once.
pub fn footprint(operation: Operation) -> (keys: Vec<DataKey>)
    ensures
        forall|key: DataKey| keys@.contains(key) <==> footprint_of(operation).contains(key),
        keys@.no_duplicates(),
{
    let mut keys = match operation {
        Operation::Metadata => Vec::new(),
        Operation::Initialize | Operation::Mint { .. } => exchange_keys(),
        _ => instance_keys(),
    };
    let ghost fixed = keys@;
    match operation {
        Operation::Metadata => {
            keys.push(DataKey::Metadata);
        },
        Operation::Initialize | Operation::SetAdmin => {},
        Operation::Mint { to } => {
            keys.push(DataKey::Balance(to));
        },
        Operation::SetRecipientAddress | Operation::GetRecipientAddress => {
            keys.push(DataKey::Recipient);
        },
        Operation::SetTokenAddress | Operation::GetTokenAddress => {
            keys.push(DataKey::PaymentAsset);
        },
        Operation::SetSpotPricePerGram | Operation::GetSpotPricePerGram => {
            keys.push(DataKey::SpotPrice);
        },
        Operation::Allowance { from, spender } | Operation::Approve { from, spender } => {
            keys.push(DataKey::Allowance(from, spender));
        },
        Operation::Balance { id } => {
            keys.push(DataKey::Balance(id));
        },
        Operation::Burn { from } => {
            keys.push(DataKey::Balance(from));
        },
        Operation::BurnFrom { spender, from } => {
            keys.push(DataKey::Allowance(from, spender));
            keys.push(DataKey::Balance(from));
        },
        Operation::Transfer { from, to } => {
            keys.push(DataKey::Balance(from));
            if !(from == to) {
                keys.push(DataKey::Balance(to));
            }
        },
        Operation::TransferFrom { spender, from, to } => {
            keys.push(DataKey::Allowance(from, spender));
            keys.push(DataKey::Balance(from));
            if !(from == to) {
                keys.push(DataKey::Balance(to));
            }
        },
    }
    proof {
        let held = keys@;
        let n = fixed.len() as int;
        assert(forall|i: int| 0 <= i < n ==> held[i] == fixed[i]);
        assert forall|key: DataKey| footprint_of(operation).contains(key) implies held.contains(
            key,
        ) by {
            if n > 0 && key == fixed[0] {
                assert(held[0] == key);
            } else if n > 1 && key == fixed[1] {
                assert(held[1] == key);
            } else if n > 2 && key == fixed[2] {
                assert(held[2] == key);
            } else if n > 3 && key == fixed[3] {
                assert(held[3] == key);
            } else if n > 4 && key == fixed[4] {
                assert(held[4] == key);
            } else if held.len() > n && key == held[n] {
            } else if held.len() > n + 1 && key == held[n + 1] {
            } else {
                assert(held.len() > n + 2 && key == held[n + 2]);
            }
        }
        assert forall|key: DataKey| held.contains(key) implies footprint_of(operation).contains(
            key,
        ) by {
            let i = choose|i: int| 0 <= i < held.len() && held[i] == key;
            assert(i < n ==> held[i] == fixed[i]);
        }
        assert forall|i: int, j: int| 0 <= i < j < held.len() implies held[i] != held[j] by {
            assert(i < n ==> held[i] == fixed[i]);
            assert(j < n ==> held[j] == fixed[j]);
        }
    }
    keys
}

proof fn lemma_renewals_agree(
    left: Entries,
    right: Entries,
    keys: Set<DataKey>,
    now: u32,
    key: DataKey,
)
    requires
        agree_on(left, right, keys, now),
    ensures
        agree_on(instance_renewed(left, now), instance_renewed(right, now), keys, now),
        agree_on(touched(left, now, key), touched(right, now, key), keys, now),
{
    lemma_instance_renewed_keeps_data(left, now);
    lemma_instance_renewed_keeps_data(right, now);
    assert forall|other: DataKey| keys.contains(other) implies #[trigger] value_at(
        instance_renewed(left, now),
        now,
        other,
    ) == value_at(instance_renewed(right, now), now, other) by {
        assert(value_at(left, now, other) == value_at(right, now, other));
    }
    assert forall|other: DataKey| keys.contains(other) implies #[trigger] value_at(
        touched(left, now, key),
        now,
        other,
    ) == value_at(touched(right, now, key), now, other) by {
        assert(value_at(left, now, other) == value_at(right, now, other));
        lemma_touched_frame(left, now, key, other, now);
        lemma_touched_frame(right, now, key, other, now);
    }
}

proof fn lemma_stored_agree(
    left: Entries,
    right: Entries,
    keys: Set<DataKey>,
    now: u32,
    key: DataKey,
    value: Value,
)
    requires
        agree_on(left, right, keys, now),
    ensures
        agree_on(stored(left, now, key, value), stored(right, now, key, value), keys, now),
{
    assert forall|other: DataKey| keys.contains(other) implies #[trigger] value_at(
        stored(left, now, key, value),
        now,
        other,
    ) == value_at(stored(right, now, key, value), now, other) by {
        assert(value_at(left, now, other) == value_at(right, now, other));
        lemma_steps_agree(left, right, now, key, value, other);
    }
}

proof fn lemma_balance_steps_agree_on(
    left: Entries,
    right: Entries,
    keys: Set<DataKey>,
    now: u32,
    account: Identity,
    amount: i128,
)
    requires
        agree_on(left, right, keys, now),
        keys.contains(DataKey::Balance(account)),
    ensures
        spend_balance_result(left, now, account, amount) == spend_balance_result(
            right,
            now,
            account,
            amount,
        ),
        receive_balance_result(left, now, account, amount) == receive_balance_result(
            right,
            now,
            account,
            amount,
        ),
        agree_on(
            after_spend_balance(left, now, account, amount),
            after_spend_balance(right, now, account, amount),
            keys,
            now,
        ),
        agree_on(
            after_receive_balance(left, now, account, amount),
            after_receive_balance(right, now, account, amount),
            keys,
            now,
        ),
{
    let key = DataKey::Balance(account);
    assert(value_at(left, now, key) == value_at(right, now, key));
    lemma_balance_steps_agree(left, right, now, account, amount, key);
    assert forall|other: DataKey| keys.contains(other) implies #[trigger] value_at(
        after_spend_balance(left, now, account, amount),
        now,
        other,
    ) == value_at(after_spend_balance(right, now, account, amount), now, other) by {
        assert(value_at(left, now, other) == value_at(right, now, other));
        lemma_balance_steps_agree(left, right, now, account, amount, other);
    }
    assert forall|other: DataKey| keys.contains(other) implies #[trigger] value_at(
        after_receive_balance(left, now, account, amount),
        now,
        other,
    ) == value_at(after_receive_balance(right, now, account, amount), now, other) by {
        assert(value_at(left, now, other) == value_at(right, now, other));
        lemma_balance_steps_agree(left, right, now, account, amount, other);
    }
}

proof fn lemma_allowance_steps_agree_on(
    left: Entries,
    right: Entries,
    keys: Set<DataKey>,
    now: u32,
    from: Identity,
    spender: Identity,
    amount: i128,
    expiration_ledger: u32,
)
    requires
        agree_on(left, right, keys, now),
        keys.contains(DataKey::Allowance(from, spender)),
    ensures
        spend_allowance_result(left, now, from, spender, amount) == spend_allowance_result(
            right,
            now,
            from,
            spender,
            amount,
        ),
        agree_on(
            after_spend_allowance(left, now, from, spender, amount),
            after_spend_allowance(right, now, from, spender, amount),
            keys,
            now,
        ),
        agree_on(
            after_write_allowance(left, now, from, spender, amount, expiration_ledger),
            after_write_allowance(right, now, from, spender, amount, expiration_ledger),
            keys,
            now,
        ),
{
    let key = DataKey::Allowance(from, spender);
    assert(value_at(left, now, key) == value_at(right, now, key));
    lemma_allowance_steps_agree(left, right, now, from, spender, amount, expiration_ledger, key);
    assert forall|other: DataKey| keys.contains(other) implies #[trigger] value_at(
        after_spend_allowance(left, now, from, spender, amount),
        now,
        other,
    ) == value_at(after_spend_allowance(right, now, from, spender, amount), now, other) by {
        assert(value_at(left, now, other) == value_at(right, now, other));
        lemma_allowance_steps_agree(
            left,
            right,
            now,
            from,
            spender,
            amount,
            expiration_ledger,
            other,
        );
    }
    assert forall|other: DataKey| keys.contains(other) implies #[trigger] value_at(
        after_write_allowance(left, now, from, spender, amount, expiration_ledger),
        now,
        other,
    ) == value_at(
        after_write_allowance(right, now, from, spender, amount, expiration_ledger),
        now,
        other,
    ) by {
        assert(value_at(left, now, other) == value_at(right, now, other));
        lemma_allowance_steps_agree(
            left,
            right,
            now,
            from,
            spender,
            amount,
            expiration_ledger,
            other,
        );
    }
}

proof fn lemma_renewals_stay_inside(
    before: Entries,
    reached: Entries,
    keys: Set<DataKey>,
    now: u32,
    key: DataKey,
)
    requires
        untouched_outside(reached, before, keys),
    ensures
        keys.contains(DataKey::Admin) && keys.contains(DataKey::Metadata) ==> untouched_outside(
            instance_renewed(reached, now),
            before,
            keys,
        ),
        keys.contains(key) ==> untouched_outside(touched(reached, now, key), before, keys),
{
    if keys.contains(DataKey::Admin) && keys.contains(DataKey::Metadata) {
        assert forall|other: DataKey, at: u32| !keys.contains(other) implies #[trigger] value_at(
            instance_renewed(reached, now),
            at,
            other,
        ) == value_at(before, at, other) by {
            lemma_instance_renewed_frame(reached, now, other, at);
            assert(value_at(reached, at, other) == value_at(before, at, other));
        }
    }
    if keys.contains(key) {
        assert forall|other: DataKey, at: u32| !keys.contains(other) implies #[trigger] value_at(
            touched(reached, now, key),
            at,
            other,
        ) == value_at(before, at, other) by {
            lemma_touched_frame(reached, now, key, other, at);
            assert(value_at(reached, at, other) == value_at(before, at, other));
        }
    }
}

proof fn lemma_stored_stays_inside(
    before: Entries,
    reached: Entries,
    keys: Set<DataKey>,
    now: u32,
    key: DataKey,
    value: Value,
)
    requires
        untouched_outside(reached, before, keys),
        keys.contains(key),
    ensures
        untouched_outside(stored(reached, now, key, value), before, keys),
{
    assert forall|other: DataKey, at: u32| !keys.contains(other) implies #[trigger] value_at(
        stored(reached, now, key, value),
        at,
        other,
    ) == value_at(before, at, other) by {
        lemma_stored_frame(reached, now, key, value, other, at);
        assert(value_at(reached, at, other) == value_at(before, at, other));
    }
}

proof fn lemma_balance_steps_stay_inside(
    before: Entries,
    reached: Entries,
    keys: Set<DataKey>,
    now: u32,
    account: Identity,
    amount: i128,
)
    requires
        untouched_outside(reached, before, keys),
        keys.contains(DataKey::Balance(account)),
    ensures
        untouched_outside(after_spend_balance(reached, now, account, amount), before, keys),
        untouched_outside(after_receive_balance(reached, now, account, amount), before, keys),
{
    assert forall|other: DataKey, at: u32| !keys.contains(other) implies #[trigger] value_at(
        after_spend_balance(reached, now, account, amount),
        at,
        other,
    ) == value_at(before, at, other) by {
        lemma_balance_steps_frame(reached, now, account, amount, other, at);
        assert(value_at(reached, at, other) == value_at(before, at, other));
    }
    assert forall|other: DataKey, at: u32| !keys.contains(other) implies #[trigger] value_at(
        after_receive_balance(reached, now, account, amount),
        at,
        other,
    ) == value_at(before, at, other) by {
        lemma_balance_steps_frame(reached, now, account, amount, other, at);
        assert(value_at(reached, at, other) == value_at(before, at, other));
    }
}

proof fn lemma_allowance_steps_stay_inside(
    before: Entries,
    reached: Entries,
    keys: Set<DataKey>,
    now: u32,
    from: Identity,
    spender: Identity,
    amount: i128,
    expiration_ledger: u32,
)
    requires
        untouched_outside(reached, before, keys),
        keys.contains(DataKey::Allowance(from, spender)),
    ensures
        untouched_outside(
            after_spend_allowance(reached, now, from, spender, amount),
            before,
            keys,
        ),
        untouched_outside(
            after_write_allowance(reached, now, from, spender, amount, expiration_ledger),
            before,
            keys,
        ),
{
    assert forall|other: DataKey, at: u32| !keys.contains(other) implies #[trigger] value_at(
        after_spend_allowance(reached, now, from, spender, amount),
        at,
        other,
    ) == value_at(before, at, other) by {
        lemma_allowance_steps_frame(
            reached,
            now,
            from,
            spender,
            amount,
            expiration_ledger,
            other,
            at,
        );
        assert(value_at(reached, at, other) == value_at(before, at, other));
    }
    assert forall|other: DataKey, at: u32| !keys.contains(other) implies #[trigger] value_at(
        after_write_allowance(reached, now, from, spender, amount, expiration_ledger),
        at,
        other,
    ) == value_at(before, at, other) by {
        lemma_allowance_steps_frame(
            reached,
            now,
            from,
            spender,
            amount,
            expiration_ledger,
            other,
            at,
        );
        assert(value_at(reached, at, other) == value_at(before, at, other));
    }
}

/// A transfer ends the same way on two stores that agree on its keys, after
/// which they agree on them still; and it changes nothing outside them.
pub proof fn transfer_stays_in_its_footprint(
    left: Entries,
    right: Entries,
    ctx: Invocation,
    from: Identity,
    to: Identity,
    amount: i128,
)
    requires
        agree_on(left, right, footprint_of(Operation::Transfer { from, to }), ctx.sequence),
    ensures
        transfer_result(left, ctx, from, to, amount) == transfer_result(
            right,
            ctx,
            from,
            to,
            amount,
        ),
        agree_on(
            after_transfer(left, ctx, from, to, amount),
            after_transfer(right, ctx, from, to, amount),
            footprint_of(Operation::Transfer { from, to }),
            ctx.sequence,
        ),
        untouched_outside(
            after_transfer(left, ctx, from, to, amount),
            left,
            footprint_of(Operation::Transfer { from, to }),
        ),
{
    let now = ctx.sequence;
    let keys = footprint_of(Operation::Transfer { from, to });
    let l1 = instance_renewed(left, now);
    let r1 = instance_renewed(right, now);
    lemma_renewals_agree(left, right, keys, now, DataKey::Admin);
    lemma_renewals_stay_inside(left, left, keys, now, DataKey::Admin);
    lemma_balance_steps_agree_on(l1, r1, keys, now, from, amount);
    lemma_balance_steps_stay_inside(left, l1, keys, now, from, amount);
    let l2 = after_spend_balance(l1, now, from, amount);
    let r2 = after_spend_balance(r1, now, from, amount);
    lemma_balance_steps_agree_on(l2, r2, keys, now, to, amount);
    lemma_balance_steps_stay_inside(left, l2, keys, now, to, amount);
    let looked_l = touched(l1, now, DataKey::Balance(from));
    let looked_r = touched(r1, now, DataKey::Balance(from));
    lemma_renewals_agree(l1, r1, keys, now, DataKey::Balance(from));
    lemma_renewals_stay_inside(left, l1, keys, now, DataKey::Balance(from));
    lemma_renewals_agree(looked_l, looked_r, keys, now, DataKey::Balance(to));
    lemma_renewals_stay_inside(left, looked_l, keys, now, DataKey::Balance(to));
}

/// A delegated transfer ends the same way on two stores that agree on its
/// keys, after which they agree on them still; and it changes nothing
/// outside them.
pub proof fn transfer_from_stays_in_its_footprint(
    left: Entries,
    right: Entries,
    ctx: Invocation,
    spender: Identity,
    from: Identity,
    to: Identity,
    amount: i128,
)
    requires
        agree_on(
            left,
            right,
            footprint_of(Operation::TransferFrom { spender, from, to }),
            ctx.sequence,
        ),
    ensures
        transfer_from_result(left, ctx, spender, from, to, amount) == transfer_from_result(
            right,
            ctx,
            spender,
            from,
            to,
            amount,
        ),
        agree_on(
            after_transfer_from(left, ctx, spender, from, to, amount),
            after_transfer_from(right, ctx, spender, from, to, amount),
            footprint_of(Operation::TransferFrom { spender, from, to }),
            ctx.sequence,
        ),
        untouched_outside(
            after_transfer_from(left, ctx, spender, from, to, amount),
            left,
            footprint_of(Operation::TransferFrom { spender, from, to }),
        ),
{
    let now = ctx.sequence;
    let keys = footprint_of(Operation::TransferFrom { spender, from, to });
    let l1 = instance_renewed(left, now);
    let r1 = instance_renewed(right, now);
    lemma_renewals_agree(left, right, keys, now, DataKey::Admin);
    lemma_renewals_stay_inside(left, left, keys, now, DataKey::Admin);
    lemma_allowance_steps_agree_on(l1, r1, keys, now, from, spender, amount, 0);
    lemma_allowance_steps_stay_inside(left, l1, keys, now, from, spender, amount, 0);
    let l2 = after_spend_allowance(l1, now, from, spender, amount);
    let r2 = after_spend_allowance(r1, now, from, spender, amount);
    lemma_balance_steps_agree_on(l2, r2, keys, now, from, amount);
    lemma_balance_steps_stay_inside(left, l2, keys, now, from, amount);
    let l3 = after_spend_balance(l2, now, from, amount);
    let r3 = after_spend_balance(r2, now, from, amount);
    lemma_balance_steps_agree_on(l3, r3, keys, now, to, amount);
    lemma_balance_steps_stay_inside(left, l3, keys, now, to, amount);
}

/// A burn, and a delegated burn, end the same way on two stores that agree
/// on their keys, after which they agree on them still; and they change
/// nothing outside them.
pub proof fn burns_stay_in_their_footprint(
    left: Entries,
    right: Entries,
    ctx: Invocation,
    spender: Identity,
    from: Identity,
    amount: i128,
)
    ensures
        agree_on(left, right, footprint_of(Operation::Burn { from }), ctx.sequence) ==> {
            &&& burn_result(left, ctx, from, amount) == burn_result(right, ctx, from, amount)
            &&& agree_on(
                after_burn(left, ctx, from, amount),
                after_burn(right, ctx, from, amount),
                footprint_of(Operation::Burn { from }),
                ctx.sequence,
            )
        },
        untouched_outside(
            after_burn(left, ctx, from, amount),
            left,
            footprint_of(Operation::Burn { from }),
        ),
        agree_on(left, right, footprint_of(Operation::BurnFrom { spender, from }), ctx.sequence)
            ==> {
            &&& burn_from_result(left, ctx, spender, from, amount) == burn_from_result(
                right,
                ctx,
                spender,
                from,
                amount,
            )
            &&& agree_on(
                after_burn_from(left, ctx, spender, from, amount),
                after_burn_from(right, ctx, spender, from, amount),
                footprint_of(Operation::BurnFrom { spender, from }),
                ctx.sequence,
            )
        },
        untouched_outside(
            after_burn_from(left, ctx, spender, from, amount),
            left,
            footprint_of(Operation::BurnFrom { spender, from }),
        ),
{
    let now = ctx.sequence;
    let l1 = instance_renewed(left, now);
    let r1 = instance_renewed(right, now);
    let keys = footprint_of(Operation::Burn { from });
    lemma_renewals_stay_inside(left, left, keys, now, DataKey::Admin);
    lemma_balance_steps_stay_inside(left, l1, keys, now, from, amount);
    if agree_on(left, right, keys, now) {
        lemma_renewals_agree(left, right, keys, now, DataKey::Admin);
        lemma_balance_steps_agree_on(l1, r1, keys, now, from, amount);
    }
    let keys = footprint_of(Operation::BurnFrom { spender, from });
    let allowance = DataKey::Allowance(from, spender);
    let l2 = after_spend_allowance(l1, now, from, spender, amount);
    let r2 = after_spend_allowance(r1, now, from, spender, amount);
    let looked_l = touched(l1, now, allowance);
    let looked_r = touched(r1, now, allowance);
    lemma_renewals_stay_inside(left, left, keys, now, DataKey::Admin);
    lemma_allowance_steps_stay_inside(left, l1, keys, now, from, spender, amount, 0);
    lemma_balance_steps_stay_inside(left, l2, keys, now, from, amount);
    lemma_renewals_stay_inside(left, l1, keys, now, allowance);
    lemma_renewals_stay_inside(left, looked_l, keys, now, DataKey::Balance(from));
    if agree_on(left, right, keys, now) {
        lemma_renewals_agree(left, right, keys, now, DataKey::Admin);
        lemma_allowance_steps_agree_on(l1, r1, keys, now, from, spender, amount, 0);
        lemma_balance_steps_agree_on(l1, r1, keys, now, from, amount);
        lemma_balance_steps_agree_on(l2, r2, keys, now, from, amount);
        lemma_renewals_agree(l1, r1, keys, now, allowance);
        lemma_renewals_agree(looked_l, looked_r, keys, now, DataKey::Balance(from));
    }
}

/// An approval ends the same way on any two stores, after which two that
/// agreed on its keys agree on them still; and it changes nothing outside
/// them.
pub proof fn approve_stays_in_its_footprint(
    left: Entries,
    right: Entries,
    ctx: Invocation,
    from: Identity,
    spender: Identity,
    amount: i128,
    expiration_ledger: u32,
)
    requires
        agree_on(left, right, footprint_of(Operation::Approve { from, spender }), ctx.sequence),
    ensures
        agree_on(
            after_approve(left, ctx, from, spender, amount, expiration_ledger),
            after_approve(right, ctx, from, spender, amount, expiration_ledger),
            footprint_of(Operation::Approve { from, spender }),
            ctx.sequence,
        ),
        untouched_outside(
            after_approve(left, ctx, from, spender, amount, expiration_ledger),
            left,
            footprint_of(Operation::Approve { from, spender }),
        ),
{
    let now = ctx.sequence;
    let keys = footprint_of(Operation::Approve { from, spender });
    let l1 = instance_renewed(left, now);
    let r1 = instance_renewed(right, now);
    lemma_renewals_agree(left, right, keys, now, DataKey::Admin);
    lemma_renewals_stay_inside(left, left, keys, now, DataKey::Admin);
    lemma_allowance_steps_agree_on(l1, r1, keys, now, from, spender, amount, expiration_ledger);
    lemma_allowance_steps_stay_inside(
        left,
        l1,
        keys,
        now,
        from,
        spender,
        amount,
        expiration_ledger,
    );
}

proof fn lemma_mint_read_stays_inside(left: Entries, right: Entries, now: u32, to: Identity)
    ensures
        untouched_outside(mint_read(left, now), left, footprint_of(Operation::Mint { to })),
        agree_on(left, right, footprint_of(Operation::Mint { to }), now) ==> agree_on(
            mint_read(left, now),
            mint_read(right, now),
            footprint_of(Operation::Mint { to }),
            now,
        ),
{
    let keys = footprint_of(Operation::Mint { to });
    let l1 = touched(left, now, DataKey::Admin);
    let l2 = instance_renewed(l1, now);
    let l3 = touched(l2, now, DataKey::PaymentAsset);
    let l4 = touched(l3, now, DataKey::Recipient);
    lemma_renewals_stay_inside(left, left, keys, now, DataKey::Admin);
    lemma_renewals_stay_inside(left, l1, keys, now, DataKey::Admin);
    lemma_renewals_stay_inside(left, l2, keys, now, DataKey::PaymentAsset);
    lemma_renewals_stay_inside(left, l3, keys, now, DataKey::Recipient);
    lemma_renewals_stay_inside(left, l4, keys, now, DataKey::SpotPrice);
    if agree_on(left, right, keys, now) {
        let r1 = touched(right, now, DataKey::Admin);
        let r2 = instance_renewed(r1, now);
        let r3 = touched(r2, now, DataKey::PaymentAsset);
        let r4 = touched(r3, now, DataKey::Recipient);
        lemma_renewals_agree(left, right, keys, now, DataKey::Admin);
        lemma_renewals_agree(l1, r1, keys, now, DataKey::Admin);
        lemma_renewals_agree(l2, r2, keys, now, DataKey::PaymentAsset);
        lemma_renewals_agree(l3, r3, keys, now, DataKey::Recipient);
        lemma_renewals_agree(l4, r4, keys, now, DataKey::SpotPrice);
    }
}

/// A mint, at either stage, ends the same way on two stores that agree on
/// its keys, after which they agree on them still; and it changes nothing
/// outside them.
pub proof fn mint_stays_in_its_footprint(
    left: Entries,
    right: Entries,
    ctx: Invocation,
    to: Identity,
    grams: i128,
    payment: PaymentStatus,
)
    requires
        agree_on(left, right, footprint_of(Operation::Mint { to }), ctx.sequence),
    ensures
        mint_result(left, ctx, to, grams, payment) == mint_result(right, ctx, to, grams, payment),
        agree_on(
            after_mint(left, ctx, to, grams, payment),
            after_mint(right, ctx, to, grams, payment),
            footprint_of(Operation::Mint { to }),
            ctx.sequence,
        ),
        untouched_outside(
            after_mint(left, ctx, to, grams, payment),
            left,
            footprint_of(Operation::Mint { to }),
        ),
{
    let now = ctx.sequence;
    let keys = footprint_of(Operation::Mint { to });
    assert(value_at(left, now, DataKey::Admin) == value_at(right, now, DataKey::Admin));
    assert(value_at(left, now, DataKey::PaymentAsset) == value_at(
        right,
        now,
        DataKey::PaymentAsset,
    ));
    assert(value_at(left, now, DataKey::Recipient) == value_at(right, now, DataKey::Recipient));
    assert(value_at(left, now, DataKey::SpotPrice) == value_at(right, now, DataKey::SpotPrice));
    assert(mint_terms(left, ctx, to, grams) == mint_terms(right, ctx, to, grams));
    lemma_mint_read_stays_inside(left, right, now, to);
    match mint_terms(left, ctx, to, grams) {
        Ok(terms) => {
            let l1 = mint_read(left, now);
            let r1 = mint_read(right, now);
            lemma_balance_steps_agree_on(l1, r1, keys, now, to, terms.tokens);
            lemma_balance_steps_stay_inside(left, l1, keys, now, to, terms.tokens);
        },
        Err(_) => {},
    }
}

/// `initialize` ends the same way on two stores that agree on its keys,
/// after which they agree on them still; and it changes nothing outside
/// them.
pub proof fn initialize_stays_in_its_footprint(
    left: Entries,
    right: Entries,
    ctx: Invocation,
    admin: Identity,
    metadata: TokenMetadata,
    recipient: Identity,
    token: Identity,
    price: i128,
)
    requires
        agree_on(left, right, footprint_of(Operation::Initialize), ctx.sequence),
    ensures
        initialize_result(left, ctx, metadata.decimal, price) == initialize_result(
            right,
            ctx,
            metadata.decimal,
            price,
        ),
        agree_on(
            after_initialize(left, ctx, admin, metadata, recipient, token, price),
            after_initialize(right, ctx, admin, metadata, recipient, token, price),
            footprint_of(Operation::Initialize),
            ctx.sequence,
        ),
        untouched_outside(
            after_initialize(left, ctx, admin, metadata, recipient, token, price),
            left,
            footprint_of(Operation::Initialize),
        ),
{
    let now = ctx.sequence;
    let keys = footprint_of(Operation::Initialize);
    assert(value_at(left, now, DataKey::Admin) == value_at(right, now, DataKey::Admin));
    let l1 = stored(left, now, DataKey::Admin, Value::Account(admin));
    let r1 = stored(right, now, DataKey::Admin, Value::Account(admin));
    lemma_stored_agree(left, right, keys, now, DataKey::Admin, Value::Account(admin));
    lemma_stored_stays_inside(left, left, keys, now, DataKey::Admin, Value::Account(admin));
    let l2 = stored(l1, now, DataKey::Metadata, Value::Metadata(metadata));
    let r2 = stored(r1, now, DataKey::Metadata, Value::Metadata(metadata));
    lemma_stored_agree(l1, r1, keys, now, DataKey::Metadata, Value::Metadata(metadata));
    lemma_stored_stays_inside(left, l1, keys, now, DataKey::Metadata, Value::Metadata(metadata));
    let l3 = stored(l2, now, DataKey::PaymentAsset, Value::Account(token));
    let r3 = stored(r2, now, DataKey::PaymentAsset, Value::Account(token));
    lemma_stored_agree(l2, r2, keys, now, DataKey::PaymentAsset, Value::Account(token));
    lemma_stored_stays_inside(left, l2, keys, now, DataKey::PaymentAsset, Value::Account(token));
    let l4 = stored(l3, now, DataKey::Recipient, Value::Account(recipient));
    let r4 = stored(r3, now, DataKey::Recipient, Value::Account(recipient));
    lemma_stored_agree(l3, r3, keys, now, DataKey::Recipient, Value::Account(recipient));
    lemma_stored_stays_inside(left, l3, keys, now, DataKey::Recipient, Value::Account(recipient));
    lemma_stored_agree(l4, r4, keys, now, DataKey::SpotPrice, Value::Amount(price));
    lemma_stored_stays_inside(left, l4, keys, now, DataKey::SpotPrice, Value::Amount(price));
}

/// A privileged write under `key` ends the same way on two stores that
/// agree on the administrator, the metadata and `key`, after which they
/// agree on them still; and it changes nothing else.
pub proof fn admin_write_stays_in_its_footprint(
    left: Entries,
    right: Entries,
    ctx: Invocation,
    key: DataKey,
    value: Value,
)
    requires
        agree_on(left, right, set![DataKey::Admin, DataKey::Metadata, key], ctx.sequence),
    ensures
        require_admin_result(left, ctx) == require_admin_result(right, ctx),
        agree_on(
            after_admin_write(left, ctx, key, value),
            after_admin_write(right, ctx, key, value),
            set![DataKey::Admin, DataKey::Metadata, key],
            ctx.sequence,
        ),
        untouched_outside(
            after_admin_write(left, ctx, key, value),
            left,
            set![DataKey::Admin, DataKey::Metadata, key],
        ),
{
    let now = ctx.sequence;
    let keys = set![DataKey::Admin, DataKey::Metadata, key];
    assert(value_at(left, now, DataKey::Admin) == value_at(right, now, DataKey::Admin));
    let l1 = touched(left, now, DataKey::Admin);
    let r1 = touched(right, now, DataKey::Admin);
    lemma_renewals_agree(left, right, keys, now, DataKey::Admin);
    lemma_renewals_stay_inside(left, left, keys, now, DataKey::Admin);
    lemma_renewals_agree(l1, r1, keys, now, DataKey::Admin);
    lemma_renewals_stay_inside(left, l1, keys, now, DataKey::Admin);
    let l2 = after_require_admin(left, ctx);
    let r2 = after_require_admin(right, ctx);
    lemma_stored_agree(l2, r2, keys, now, key, value);
    lemma_stored_stays_inside(left, l2, keys, now, key, value);
}

/// A read of one key after the instance's leases were renewed, as `balance`,
/// `allowance` and the getters of the exchange do, finds the same in two
/// stores that agree on the administrator, the metadata and that key, after
/// which they agree on them still; and it changes nothing else. A read of
/// one key alone, as the reads of the metadata do, changes nothing but under
/// that key.
pub proof fn reads_stay_in_their_footprint(
    left: Entries,
    right: Entries,
    now: u32,
    key: DataKey,
)
    requires
        agree_on(left, right, set![DataKey::Admin, DataKey::Metadata, key], now),
    ensures
        value_at(left, now, key) == value_at(right, now, key),
        untouched_outside(touched(left, now, key), left, set![key]),
        agree_on(
            touched(instance_renewed(left, now), now, key),
            touched(instance_renewed(right, now), now, key),
            set![DataKey::Admin, DataKey::Metadata, key],
            now,
        ),
        untouched_outside(
            touched(instance_renewed(left, now), now, key),
            left,
            set![DataKey::Admin, DataKey::Metadata, key],
        ),
{
    let keys = set![DataKey::Admin, DataKey::Metadata, key];
    lemma_renewals_stay_inside(left, left, set![key], now, key);
    lemma_renewals_agree(left, right, keys, now, key);
    lemma_renewals_stay_inside(left, left, keys, now, key);
    lemma_renewals_agree(instance_renewed(left, now), instance_renewed(right, now), keys, now, key);
    lemma_renewals_stay_inside(left, instance_renewed(left, now), keys, now, key);
}

} // verus!
