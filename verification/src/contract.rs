//! The token's operations: each checks authorization, renews leases, changes
//! the ledger and reports the event to emit.
//!
//! An operation that fails changes no value: it tests what it needs before
//! it writes, and at most leases were renewed by then. The one exception is
//! `transfer_from`, a sequence of three checked steps of which a step that
//! fails leaves the steps before it applied.

use vstd::prelude::*;
use crate::admin::{admin_of, has_administrator, read_administrator, write_administrator};
use crate::allowance::{
    after_spend_allowance, after_write_allowance, allowance_of, check_spend_allowance,
    lemma_spend_allowance_after_touched, read_allowance, spend_allowance,
    spend_allowance_result, write_allowance,
};
use crate::balance::{
    after_receive_balance, after_spend_balance, balance_of, check_receive_balance,
    check_spend_balance, lemma_balance_steps_after_touched, lemma_balance_steps_frame,
    lemma_debit, read_balance, receive_balance, receive_balance_result, spend_balance,
    spend_balance_result,
};
use crate::error::Error;
use crate::identity::Identity;
use crate::invocation::Invocation;
use crate::lease::{
    lemma_renewal_keeps_data, lemma_touched_frame, lemma_touched_keeps_valid, same_data, stored,
    touched, valid, value_at, Entries, LeaseStore,
};
use crate::metadata::{metadata_of, read_decimal, read_name, read_symbol, write_metadata};
use crate::native_token::{
    payment_asset_of, purchase_of, quote_purchase, read_recipient_address,
    read_spot_price_per_gram, read_token_address, recipient_of, spot_price_of,
    write_recipient_address, write_spot_price_per_gram, write_token_address,
};
use crate::storage_types::{
    DataKey, TokenMetadata, Value, LEASE_BUMP_AMOUNT, LEASE_LIFETIME_THRESHOLD,
};

verus! {

/// A notification for the host to emit once the operation has succeeded.
#[derive(Clone, Copy, Debug, PartialEq, Eq, Structural)]
pub enum Event {
    Mint { admin: Identity, to: Identity, amount: i128 },
    Transfer { from: Identity, to: Identity, amount: i128 },
    Burn { from: Identity, amount: i128 },
    Approve { from: Identity, spender: Identity, amount: i128, expiration_ledger: u32 },
    SetAdmin { admin: Identity, new_admin: Identity },
}

/// A transfer of the payment asset that the host is to carry out.
#[derive(Clone, Copy, Debug, PartialEq, Eq, Structural)]
pub struct PaymentOrder {
    pub asset: Identity,
    pub payer: Identity,
    pub recipient: Identity,
    pub amount: i128,
}

/// What the host reports of the payment for a mint.
#[derive(Clone, Copy, Debug, PartialEq, Eq, Structural)]
pub enum PaymentStatus {
    /// No payment was made yet.
    Pending,
    /// The payment that the ledger ordered went through.
    Settled,
}

/// How far a mint has come.
#[derive(Clone, Copy, Debug, PartialEq, Eq, Structural)]
pub enum MintStep {
    /// The purchase was accepted and nothing credited: the host is to carry
    /// out the order and come back with the payment settled.
    PaymentDue(PaymentOrder),
    /// The tokens were credited.
    Minted(Event),
}

/// Fails with `NegativeAmount` exactly on a negative amount.
pub fn check_nonnegative_amount(amount: i128) -> (checked: Result<(), Error>)
    ensures
        checked == (if amount < 0 {
            Err::<(), Error>(Error::NegativeAmount)
        } else {
            Ok(())
        }),
{
    if amount < 0 {
        Err(Error::NegativeAmount)
    } else {
        Ok(())
    }
}

/// The contents after the leases of the instance's own entries, the
/// administrator and the metadata, were renewed.
pub open spec fn instance_renewed(entries: Entries, now: u32) -> Entries {
    touched(touched(entries, now, DataKey::Admin), now, DataKey::Metadata)
}

fn renew_instance(store: &mut LeaseStore, now: u32)
    requires
        old(store).wf(),
    ensures
        final(store).wf(),
        final(store)@ == instance_renewed(old(store)@, now),
{
    store.renew(now, DataKey::Admin, LEASE_LIFETIME_THRESHOLD, LEASE_BUMP_AMOUNT);
    store.renew(now, DataKey::Metadata, LEASE_LIFETIME_THRESHOLD, LEASE_BUMP_AMOUNT);
}

/// How `initialize` ends.
pub open spec fn initialize_result(
    entries: Entries,
    ctx: Invocation,
    decimal: u32,
    price: i128,
) -> Result<(), Error> {
    if admin_of(entries, ctx.sequence).is_some() {
        Err(Error::AlreadyInitialized)
    } else if decimal > 255 {
        Err(Error::InvalidDecimals)
    } else if price < 0 {
        Err(Error::NegativeAmount)
    } else {
        Ok(())
    }
}

/// The contents after `initialize`: unchanged where it failed.
pub open spec fn after_initialize(
    entries: Entries,
    ctx: Invocation,
    admin: Identity,
    metadata: TokenMetadata,
    recipient: Identity,
    token: Identity,
    price: i128,
) -> Entries {
    let now = ctx.sequence;
    if initialize_result(entries, ctx, metadata.decimal, price) is Err {
        entries
    } else {
        let s1 = stored(entries, now, DataKey::Admin, Value::Account(admin));
        let s2 = stored(s1, now, DataKey::Metadata, Value::Metadata(metadata));
        let s3 = stored(s2, now, DataKey::PaymentAsset, Value::Account(token));
        let s4 = stored(s3, now, DataKey::Recipient, Value::Account(recipient));
        stored(s4, now, DataKey::SpotPrice, Value::Amount(price))
    }
}

/// The contents after a privileged operation has read the administrator
/// and, where the administrator authorized it, renewed the instance's
/// leases.
pub open spec fn after_require_admin(entries: Entries, ctx: Invocation) -> Entries {
    let now = ctx.sequence;
    let s1 = touched(entries, now, DataKey::Admin);
    match admin_of(entries, now) {
        Some(admin) => if ctx.authorizes(admin) {
            instance_renewed(s1, now)
        } else {
            s1
        },
        None => s1,
    }
}

/// Whether a privileged operation may go on: the administrator in place,
/// or why not.
pub open spec fn require_admin_result(entries: Entries, ctx: Invocation) -> Result<
    Identity,
    Error,
> {
    match admin_of(entries, ctx.sequence) {
        Some(admin) => if ctx.authorizes(admin) {
            Ok(admin)
        } else {
            Err(Error::Unauthorized)
        },
        None => Err(Error::NotInitialized),
    }
}

fn require_admin(store: &mut LeaseStore, ctx: &Invocation) -> (admin: Result<Identity, Error>)
    requires
        old(store).wf(),
    ensures
        final(store).wf(),
        admin == require_admin_result(old(store)@, *ctx),
        final(store)@ == after_require_admin(old(store)@, *ctx),
{
    let admin = read_administrator(store, ctx.sequence)?;
    ctx.require_auth(admin)?;
    renew_instance(store, ctx.sequence);
    Ok(admin)
}

/// How `set_admin` ends.
pub open spec fn set_admin_result(entries: Entries, ctx: Invocation, new_admin: Identity) -> Result<
    Event,
    Error,
> {
    match require_admin_result(entries, ctx) {
        Ok(admin) => Ok(Event::SetAdmin { admin, new_admin }),
        Err(e) => Err(e),
    }
}

/// How setting one of the exchange's two identities ends.
pub open spec fn set_address_result(entries: Entries, ctx: Invocation) -> Result<(), Error> {
    match require_admin_result(entries, ctx) {
        Ok(_) => Ok(()),
        Err(e) => Err(e),
    }
}

/// The contents after a privileged operation that stores `value` under
/// `key` once the administrator has authorized it.
pub open spec fn after_admin_write(
    entries: Entries,
    ctx: Invocation,
    key: DataKey,
    value: Value,
) -> Entries {
    if require_admin_result(entries, ctx) is Ok {
        stored(after_require_admin(entries, ctx), ctx.sequence, key, value)
    } else {
        after_require_admin(entries, ctx)
    }
}

/// How `set_spot_price_per_gram` ends.
pub open spec fn set_spot_price_result(entries: Entries, ctx: Invocation, price: i128) -> Result<
    (),
    Error,
> {
    if price < 0 {
        Err(Error::NegativeAmount)
    } else {
        set_address_result(entries, ctx)
    }
}

/// The contents after `set_spot_price_per_gram`.
pub open spec fn after_set_spot_price(entries: Entries, ctx: Invocation, price: i128) -> Entries {
    if price < 0 {
        entries
    } else {
        after_admin_write(entries, ctx, DataKey::SpotPrice, Value::Amount(price))
    }
}

/// Whether an operation on amounts may start: the principal has authorized
/// it and the amount is not negative.
pub open spec fn entry_result(ctx: Invocation, principal: Identity, amount: i128) -> Result<
    (),
    Error,
> {
    if !ctx.authorizes(principal) {
        Err(Error::Unauthorized)
    } else if amount < 0 {
        Err(Error::NegativeAmount)
    } else {
        Ok(())
    }
}

/// How `approve` ends.
pub open spec fn approve_result(
    ctx: Invocation,
    from: Identity,
    spender: Identity,
    amount: i128,
    expiration_ledger: u32,
) -> Result<Event, Error> {
    match entry_result(ctx, from, amount) {
        Err(e) => Err(e),
        Ok(_) => Ok(Event::Approve { from, spender, amount, expiration_ledger }),
    }
}

/// The contents after `approve`: unchanged where it failed.
pub open spec fn after_approve(
    entries: Entries,
    ctx: Invocation,
    from: Identity,
    spender: Identity,
    amount: i128,
    expiration_ledger: u32,
) -> Entries {
    let now = ctx.sequence;
    if entry_result(ctx, from, amount) is Err {
        entries
    } else {
        after_write_allowance(
            instance_renewed(entries, now),
            now,
            from,
            spender,
            amount,
            expiration_ledger,
        )
    }
}

/// How `transfer` ends.
pub open spec fn transfer_result(
    entries: Entries,
    ctx: Invocation,
    from: Identity,
    to: Identity,
    amount: i128,
) -> Result<Event, Error> {
    let now = ctx.sequence;
    let s1 = instance_renewed(entries, now);
    let s2 = after_spend_balance(s1, now, from, amount);
    match entry_result(ctx, from, amount) {
        Err(e) => Err(e),
        Ok(_) => match spend_balance_result(s1, now, from, amount) {
            Err(e) => Err(e),
            Ok(_) => match receive_balance_result(s2, now, to, amount) {
                Err(e) => Err(e),
                Ok(_) => Ok(Event::Transfer { from, to, amount }),
            },
        },
    }
}

/// The contents after `transfer`: unchanged where it was not let in; where
/// the debit or the credit cannot be made, neither is, and only the leases
/// of the balances looked at were renewed.
pub open spec fn after_transfer(
    entries: Entries,
    ctx: Invocation,
    from: Identity,
    to: Identity,
    amount: i128,
) -> Entries {
    let now = ctx.sequence;
    let s1 = instance_renewed(entries, now);
    let looked_at = touched(s1, now, DataKey::Balance(from));
    let debited = after_spend_balance(s1, now, from, amount);
    if entry_result(ctx, from, amount) is Err {
        entries
    } else if spend_balance_result(s1, now, from, amount) is Err {
        looked_at
    } else if receive_balance_result(debited, now, to, amount) is Err {
        touched(looked_at, now, DataKey::Balance(to))
    } else {
        after_receive_balance(debited, now, to, amount)
    }
}

/// How `transfer_from` ends.
pub open spec fn transfer_from_result(
    entries: Entries,
    ctx: Invocation,
    spender: Identity,
    from: Identity,
    to: Identity,
    amount: i128,
) -> Result<Event, Error> {
    let now = ctx.sequence;
    let s1 = instance_renewed(entries, now);
    let s2 = after_spend_allowance(s1, now, from, spender, amount);
    let s3 = after_spend_balance(s2, now, from, amount);
    match entry_result(ctx, spender, amount) {
        Err(e) => Err(e),
        Ok(_) => match spend_allowance_result(s1, now, from, spender, amount) {
            Err(e) => Err(e),
            Ok(_) => match spend_balance_result(s2, now, from, amount) {
                Err(e) => Err(e),
                Ok(_) => match receive_balance_result(s3, now, to, amount) {
                    Err(e) => Err(e),
                    Ok(_) => Ok(Event::Transfer { from, to, amount }),
                },
            },
        },
    }
}

/// The contents after `transfer_from`: the steps up to the one that failed
/// stay applied.
pub open spec fn after_transfer_from(
    entries: Entries,
    ctx: Invocation,
    spender: Identity,
    from: Identity,
    to: Identity,
    amount: i128,
) -> Entries {
    let now = ctx.sequence;
    let s1 = instance_renewed(entries, now);
    let s2 = after_spend_allowance(s1, now, from, spender, amount);
    let s3 = after_spend_balance(s2, now, from, amount);
    if entry_result(ctx, spender, amount) is Err {
        entries
    } else if spend_allowance_result(s1, now, from, spender, amount) is Err {
        s2
    } else if spend_balance_result(s2, now, from, amount) is Err {
        s3
    } else {
        after_receive_balance(s3, now, to, amount)
    }
}

/// How `burn` ends.
pub open spec fn burn_result(
    entries: Entries,
    ctx: Invocation,
    from: Identity,
    amount: i128,
) -> Result<Event, Error> {
    let now = ctx.sequence;
    match entry_result(ctx, from, amount) {
        Err(e) => Err(e),
        Ok(_) => match spend_balance_result(instance_renewed(entries, now), now, from, amount) {
            Err(e) => Err(e),
            Ok(_) => Ok(Event::Burn { from, amount }),
        },
    }
}

/// The contents after `burn`: unchanged where it was not let in.
pub open spec fn after_burn(
    entries: Entries,
    ctx: Invocation,
    from: Identity,
    amount: i128,
) -> Entries {
    let now = ctx.sequence;
    if entry_result(ctx, from, amount) is Err {
        entries
    } else {
        after_spend_balance(instance_renewed(entries, now), now, from, amount)
    }
}

/// How `burn_from` ends: the allowance and the balance are both tested
/// before either is changed.
pub open spec fn burn_from_result(
    entries: Entries,
    ctx: Invocation,
    spender: Identity,
    from: Identity,
    amount: i128,
) -> Result<Event, Error> {
    let now = ctx.sequence;
    let s1 = instance_renewed(entries, now);
    match entry_result(ctx, spender, amount) {
        Err(e) => Err(e),
        Ok(_) => match spend_allowance_result(s1, now, from, spender, amount) {
            Err(e) => Err(e),
            Ok(_) => match spend_balance_result(s1, now, from, amount) {
                Err(e) => Err(e),
                Ok(_) => Ok(Event::Burn { from, amount }),
            },
        },
    }
}

/// The contents after `burn_from`: unchanged where it was not let in; where
/// the allowance or the balance does not suffice, neither is changed, and
/// only the leases of what was looked at were renewed.
pub open spec fn after_burn_from(
    entries: Entries,
    ctx: Invocation,
    spender: Identity,
    from: Identity,
    amount: i128,
) -> Entries {
    let now = ctx.sequence;
    let s1 = instance_renewed(entries, now);
    let looked_at = touched(s1, now, DataKey::Allowance(from, spender));
    if entry_result(ctx, spender, amount) is Err {
        entries
    } else if spend_allowance_result(s1, now, from, spender, amount) is Err {
        looked_at
    } else if spend_balance_result(s1, now, from, amount) is Err {
        touched(looked_at, now, DataKey::Balance(from))
    } else {
        after_spend_balance(
            after_spend_allowance(s1, now, from, spender, amount),
            now,
            from,
            amount,
        )
    }
}

/// The contents after a mint has read the administrator and the exchange
/// parameters.
pub open spec fn mint_read(entries: Entries, now: u32) -> Entries {
    let s1 = instance_renewed(touched(entries, now, DataKey::Admin), now);
    let s2 = touched(s1, now, DataKey::PaymentAsset);
    let s3 = touched(s2, now, DataKey::Recipient);
    touched(s3, now, DataKey::SpotPrice)
}

/// What a mint has settled before it orders the payment.
pub struct MintTerms {
    pub admin: Identity,
    pub order: PaymentOrder,
    pub tokens: i128,
}

/// The terms of a purchase of `grams` by `to`: the administrator in place,
/// the payment to order and the tokens to credit, or why there is no
/// purchase.
pub open spec fn mint_terms(entries: Entries, ctx: Invocation, to: Identity, grams: i128) -> Result<
    MintTerms,
    Error,
> {
    let now = ctx.sequence;
    if grams < 0 {
        Err(Error::NegativeAmount)
    } else if admin_of(entries, now) is None {
        Err(Error::NotInitialized)
    } else if !ctx.authorizes(to) {
        Err(Error::Unauthorized)
    } else if payment_asset_of(entries, now) is None || recipient_of(entries, now) is None
        || spot_price_of(entries, now) is None {
        Err(Error::NotInitialized)
    } else {
        match purchase_of(grams, spot_price_of(entries, now)->0) {
            Err(e) => Err(e),
            Ok(purchase) => Ok(
                MintTerms {
                    admin: admin_of(entries, now)->0,
                    order: PaymentOrder {
                        asset: payment_asset_of(entries, now)->0,
                        payer: to,
                        recipient: recipient_of(entries, now)->0,
                        amount: purchase.price,
                    },
                    tokens: purchase.tokens,
                },
            ),
        }
    }
}

/// How `mint` ends: with the order while the payment is pending; once it is
/// settled, with the credit.
pub open spec fn mint_result(
    entries: Entries,
    ctx: Invocation,
    to: Identity,
    grams: i128,
    payment: PaymentStatus,
) -> Result<MintStep, Error> {
    let now = ctx.sequence;
    match mint_terms(entries, ctx, to, grams) {
        Err(e) => Err(e),
        Ok(terms) => match payment {
            PaymentStatus::Pending => Ok(MintStep::PaymentDue(terms.order)),
            PaymentStatus::Settled => match receive_balance_result(
                mint_read(entries, now),
                now,
                to,
                terms.tokens,
            ) {
                Err(e) => Err(e),
                Ok(_) => Ok(
                    MintStep::Minted(Event::Mint { admin: terms.admin, to, amount: terms.tokens }),
                ),
            },
        },
    }
}

/// The contents after `mint`: unchanged on a negative amount; else the
/// parameters were read, and the tokens credited once the payment is
/// settled.
pub open spec fn after_mint(
    entries: Entries,
    ctx: Invocation,
    to: Identity,
    grams: i128,
    payment: PaymentStatus,
) -> Entries {
    let now = ctx.sequence;
    if grams < 0 {
        entries
    } else {
        match mint_terms(entries, ctx, to, grams) {
            Err(_) => mint_read(entries, now),
            Ok(terms) => match payment {
                PaymentStatus::Pending => mint_read(entries, now),
                PaymentStatus::Settled => after_receive_balance(
                    mint_read(entries, now),
                    now,
                    to,
                    terms.tokens,
                ),
            },
        }
    }
}

fn settle_mint_terms(store: &mut LeaseStore, ctx: &Invocation, to: Identity, grams: i128) -> (terms:
    Result<MintTerms, Error>)
    requires
        old(store).wf(),
        grams >= 0,
    ensures
        final(store).wf(),
        terms == mint_terms(old(store)@, *ctx, to, grams),
        final(store)@ == mint_read(old(store)@, ctx.sequence),
{
    let now = ctx.sequence;
    let ghost s0 = store@;
    let admin = read_administrator(store, now);
    let ghost s1 = store@;
    renew_instance(store, now);
    let ghost s2 = store@;
    let token_address = read_token_address(store, now);
    let ghost s3 = store@;
    let recipient_address = read_recipient_address(store, now);
    let spot_price_per_gram = read_spot_price_per_gram(store, now);
    proof {
        lemma_touched_frame(s0, now, DataKey::Admin, DataKey::PaymentAsset, now);
        lemma_touched_frame(s0, now, DataKey::Admin, DataKey::Recipient, now);
        lemma_touched_frame(s0, now, DataKey::Admin, DataKey::SpotPrice, now);
        lemma_instance_renewed_keeps_data(s1, now);
        lemma_touched_frame(s2, now, DataKey::PaymentAsset, DataKey::Recipient, now);
        lemma_touched_frame(s2, now, DataKey::PaymentAsset, DataKey::SpotPrice, now);
        lemma_touched_frame(s3, now, DataKey::Recipient, DataKey::SpotPrice, now);
    }
    let admin = admin?;
    ctx.require_auth(to)?;
    let asset = token_address?;
    let recipient = recipient_address?;
    let purchase = quote_purchase(grams, spot_price_per_gram?)?;
    Ok(
        MintTerms {
            admin,
            order: PaymentOrder { asset, payer: to, recipient, amount: purchase.price },
            tokens: purchase.tokens,
        },
    )
}

/// One instance of the token: its ledger and its exchange parameters.
pub struct Token {
    pub store: LeaseStore,
}

impl View for Token {
    type V = Entries;

    open spec fn view(&self) -> Entries {
        self.store@
    }
}

impl Token {
    /// The instance's invariant: that of its store.
    pub open spec fn wf(&self) -> bool {
        self.store.wf()
    }

    /// A fresh instance, not yet initialized.
    pub fn new() -> (token: Token)
        ensures
            token.wf(),
            token@ == Entries::empty(),
    {
        Token { store: LeaseStore::new() }
    }

    /// Sets the administrator, the metadata and the exchange parameters of a
    /// fresh instance. Fails with `AlreadyInitialized` where an administrator
    /// is readable, then with `InvalidDecimals` where `decimal` exceeds 255,
    /// then with `NegativeAmount` on a negative price; a failed call changes
    /// nothing.
    pub fn initialize(
        &mut self,
        ctx: &Invocation,
        admin: Identity,
        decimal: u32,
        name: String,
        symbol: String,
        recipient: Identity,
        token: Identity,
        price: i128,
    ) -> (done: Result<(), Error>)
        requires
            old(self).wf(),
        ensures
            final(self).wf(),
            done == initialize_result(old(self)@, *ctx, decimal, price),
            final(self)@ == after_initialize(
                old(self)@,
                *ctx,
                admin,
                TokenMetadata { decimal, name, symbol },
                recipient,
                token,
                price,
            ),
    {
        let now = ctx.sequence;
        if has_administrator(&self.store, now) {
            return Err(Error::AlreadyInitialized);
        }
        if decimal > 255 {
            return Err(Error::InvalidDecimals);
        }
        check_nonnegative_amount(price)?;
        write_administrator(&mut self.store, now, admin);
        write_metadata(&mut self.store, now, TokenMetadata { decimal, name, symbol })?;
        write_token_address(&mut self.store, now, token);
        write_recipient_address(&mut self.store, now, recipient);
        write_spot_price_per_gram(&mut self.store, now, price)?;
        Ok(())
    }

    /// Sells `purchased_gold_in_gram` to `to`, who must have authorized the
    /// invocation. While the payment is pending the call checks the purchase,
    /// credits nothing and returns the payment to order. With the payment
    /// settled it credits the tokens and returns the mint event. Fails with
    /// `NegativeAmount` before anything else, with `NotInitialized` where
    /// the administrator or an exchange parameter is not readable, with
    /// `Unauthorized`, and with `Overflow` where the tokens, the price or the
    /// new balance leave the range of amounts.
    ///
    /// A payment that went through is not undone where the credit then
    /// fails: the ledger has no way to refund it.
    pub fn mint(
        &mut self,
        ctx: &Invocation,
        to: Identity,
        purchased_gold_in_gram: i128,
        payment: PaymentStatus,
    ) -> (step: Result<MintStep, Error>)
        requires
            old(self).wf(),
        ensures
            final(self).wf(),
            step == mint_result(old(self)@, *ctx, to, purchased_gold_in_gram, payment),
            final(self)@ == after_mint(old(self)@, *ctx, to, purchased_gold_in_gram, payment),
    {
        check_nonnegative_amount(purchased_gold_in_gram)?;
        let terms = settle_mint_terms(&mut self.store, ctx, to, purchased_gold_in_gram)?;
        match payment {
            PaymentStatus::Pending => Ok(MintStep::PaymentDue(terms.order)),
            PaymentStatus::Settled => {
                receive_balance(&mut self.store, ctx.sequence, to, terms.tokens)?;
                Ok(MintStep::Minted(Event::Mint { admin: terms.admin, to, amount: terms.tokens }))
            },
        }
    }

    /// Replaces the recipient of payments. Only the administrator may.
    pub fn set_recipient_address(&mut self, ctx: &Invocation, new_recipient: Identity) -> (done:
        Result<(), Error>)
        requires
            old(self).wf(),
        ensures
            final(self).wf(),
            done == set_address_result(old(self)@, *ctx),
            final(self)@ == after_admin_write(
                old(self)@,
                *ctx,
                DataKey::Recipient,
                Value::Account(new_recipient),
            ),
    {
        require_admin(&mut self.store, ctx)?;
        write_recipient_address(&mut self.store, ctx.sequence, new_recipient);
        Ok(())
    }

    /// The recipient of payments. Renews the leases it reads through.
    pub fn get_recipient_address(&mut self, ctx: &Invocation) -> (recipient: Result<
        Identity,
        Error,
    >)
        requires
            old(self).wf(),
        ensures
            final(self).wf(),
            recipient == match recipient_of(old(self)@, ctx.sequence) {
                Some(id) => Ok::<Identity, Error>(id),
                None => Err(Error::NotInitialized),
            },
            final(self)@ == touched(
                instance_renewed(old(self)@, ctx.sequence),
                ctx.sequence,
                DataKey::Recipient,
            ),
    {
        proof {
            lemma_instance_renewed_keeps_data(self@, ctx.sequence);
        }
        renew_instance(&mut self.store, ctx.sequence);
        read_recipient_address(&mut self.store, ctx.sequence)
    }

    /// Replaces the payment asset. Only the administrator may.
    pub fn set_token_address(&mut self, ctx: &Invocation, new_token: Identity) -> (done: Result<
        (),
        Error,
    >)
        requires
            old(self).wf(),
        ensures
            final(self).wf(),
            done == set_address_result(old(self)@, *ctx),
            final(self)@ == after_admin_write(
                old(self)@,
                *ctx,
                DataKey::PaymentAsset,
                Value::Account(new_token),
            ),
    {
        require_admin(&mut self.store, ctx)?;
        write_token_address(&mut self.store, ctx.sequence, new_token);
        Ok(())
    }

    /// The payment asset. Renews the leases it reads through.
    pub fn get_token_address(&mut self, ctx: &Invocation) -> (token: Result<Identity, Error>)
        requires
            old(self).wf(),
        ensures
            final(self).wf(),
            token == match payment_asset_of(old(self)@, ctx.sequence) {
                Some(id) => Ok::<Identity, Error>(id),
                None => Err(Error::NotInitialized),
            },
            final(self)@ == touched(
                instance_renewed(old(self)@, ctx.sequence),
                ctx.sequence,
                DataKey::PaymentAsset,
            ),
    {
        proof {
            lemma_instance_renewed_keeps_data(self@, ctx.sequence);
        }
        renew_instance(&mut self.store, ctx.sequence);
        read_token_address(&mut self.store, ctx.sequence)
    }

    /// Replaces the spot price per gram. Fails with `NegativeAmount`, before
    /// anything is read, on a negative price. Only the administrator may.
    pub fn set_spot_price_per_gram(&mut self, ctx: &Invocation, price: i128) -> (done: Result<
        (),
        Error,
    >)
        requires
            old(self).wf(),
        ensures
            final(self).wf(),
            done == set_spot_price_result(old(self)@, *ctx, price),
            final(self)@ == after_set_spot_price(old(self)@, *ctx, price),
    {
        check_nonnegative_amount(price)?;
        require_admin(&mut self.store, ctx)?;
        write_spot_price_per_gram(&mut self.store, ctx.sequence, price)?;
        Ok(())
    }

    /// The spot price per gram, never negative. Renews the leases it reads
    /// through.
    pub fn get_spot_price_per_gram(&mut self, ctx: &Invocation) -> (price: Result<i128, Error>)
        requires
            old(self).wf(),
        ensures
            final(self).wf(),
            price == match spot_price_of(old(self)@, ctx.sequence) {
                Some(held) => Ok::<i128, Error>(held),
                None => Err(Error::NotInitialized),
            },
            price matches Ok(held) ==> held >= 0,
            final(self)@ == touched(
                instance_renewed(old(self)@, ctx.sequence),
                ctx.sequence,
                DataKey::SpotPrice,
            ),
    {
        proof {
            lemma_instance_renewed_keeps_data(self@, ctx.sequence);
        }
        renew_instance(&mut self.store, ctx.sequence);
        read_spot_price_per_gram(&mut self.store, ctx.sequence)
    }

    /// Replaces the administrator. The invocation must carry the
    /// authorization of the administrator in place, not of the new one. The
    /// event names both.
    pub fn set_admin(&mut self, ctx: &Invocation, new_admin: Identity) -> (event: Result<
        Event,
        Error,
    >)
        requires
            old(self).wf(),
        ensures
            final(self).wf(),
            event == set_admin_result(old(self)@, *ctx, new_admin),
            final(self)@ == after_admin_write(
                old(self)@,
                *ctx,
                DataKey::Admin,
                Value::Account(new_admin),
            ),
    {
        let admin = require_admin(&mut self.store, ctx)?;
        write_administrator(&mut self.store, ctx.sequence, new_admin);
        Ok(Event::SetAdmin { admin, new_admin })
    }

    /// The amount that `from` lets `spender` move, as stored: zero where
    /// nothing is readable.
    pub fn allowance(&mut self, ctx: &Invocation, from: Identity, spender: Identity) -> (amount:
        i128)
        requires
            old(self).wf(),
        ensures
            final(self).wf(),
            amount == allowance_of(old(self)@, ctx.sequence, from, spender).amount,
            amount >= 0,
            final(self)@ == touched(
                instance_renewed(old(self)@, ctx.sequence),
                ctx.sequence,
                DataKey::Allowance(from, spender),
            ),
    {
        proof {
            lemma_instance_renewed_keeps_data(self@, ctx.sequence);
        }
        renew_instance(&mut self.store, ctx.sequence);
        read_allowance(&mut self.store, ctx.sequence, from, spender).amount
    }

    /// Lets `spender` move up to `amount` of what `from` holds, until
    /// `expiration_ledger`. What was allowed before is replaced, not added
    /// to. Fails with `Unauthorized` where `from` has not authorized the
    /// invocation, then with `NegativeAmount`; a failed call changes nothing.
    pub fn approve(
        &mut self,
        ctx: &Invocation,
        from: Identity,
        spender: Identity,
        amount: i128,
        expiration_ledger: u32,
    ) -> (event: Result<Event, Error>)
        requires
            old(self).wf(),
        ensures
            final(self).wf(),
            event == approve_result(*ctx, from, spender, amount, expiration_ledger),
            final(self)@ == after_approve(
                old(self)@,
                *ctx,
                from,
                spender,
                amount,
                expiration_ledger,
            ),
    {
        ctx.require_auth(from)?;
        check_nonnegative_amount(amount)?;
        renew_instance(&mut self.store, ctx.sequence);
        write_allowance(&mut self.store, ctx.sequence, from, spender, amount, expiration_ledger)?;
        Ok(Event::Approve { from, spender, amount, expiration_ledger })
    }

    /// The balance of `id`, never negative: zero where nothing is readable.
    pub fn balance(&mut self, ctx: &Invocation, id: Identity) -> (amount: i128)
        requires
            old(self).wf(),
        ensures
            final(self).wf(),
            amount == balance_of(old(self)@, ctx.sequence, id),
            amount >= 0,
            final(self)@ == touched(
                instance_renewed(old(self)@, ctx.sequence),
                ctx.sequence,
                DataKey::Balance(id),
            ),
    {
        proof {
            lemma_instance_renewed_keeps_data(self@, ctx.sequence);
        }
        renew_instance(&mut self.store, ctx.sequence);
        read_balance(&mut self.store, ctx.sequence, id)
    }

    /// Moves `amount` from `from` to `to`. Fails with `Unauthorized` where
    /// `from` has not authorized the invocation, then with `NegativeAmount`,
    /// both before anything is touched; then with `InsufficientBalance`
    /// where the amount exceeds the balance of `from`; then with `Overflow`
    /// where the balance of `to` cannot take the amount. A transfer that
    /// fails changes no balance: both are tested before the debit.
    pub fn transfer(
        &mut self,
        ctx: &Invocation,
        from: Identity,
        to: Identity,
        amount: i128,
    ) -> (event: Result<Event, Error>)
        requires
            old(self).wf(),
        ensures
            final(self).wf(),
            event == transfer_result(old(self)@, *ctx, from, to, amount),
            final(self)@ == after_transfer(old(self)@, *ctx, from, to, amount),
    {
        let now = ctx.sequence;
        ctx.require_auth(from)?;
        check_nonnegative_amount(amount)?;
        renew_instance(&mut self.store, now);
        let ghost s1 = self@;
        check_spend_balance(&mut self.store, now, from, amount)?;
        proof {
            lemma_balance_steps_after_touched(s1, now, from, amount, DataKey::Balance(from));
            lemma_debit(s1, now, from, amount, now);
            lemma_balance_steps_frame(s1, now, from, amount, DataKey::Balance(to), now);
            lemma_touched_frame(s1, now, DataKey::Balance(from), DataKey::Balance(to), now);
        }
        if !(from == to) {
            check_receive_balance(&mut self.store, now, to, amount)?;
            proof {
                let debited = after_spend_balance(s1, now, from, amount);
                lemma_balance_steps_after_touched(
                    touched(s1, now, DataKey::Balance(from)),
                    now,
                    from,
                    amount,
                    DataKey::Balance(to),
                );
                lemma_balance_steps_after_touched(debited, now, to, amount, DataKey::Balance(to));
            }
        }
        spend_balance(&mut self.store, now, from, amount)?;
        receive_balance(&mut self.store, now, to, amount)?;
        Ok(Event::Transfer { from, to, amount })
    }

    /// Moves `amount` from `from` to `to` on the allowance that `from` gave
    /// `spender`, who must have authorized the invocation. The allowance is
    /// spent first, then the balance debited, then the amount credited; a
    /// step that fails ends the operation and leaves the steps before it
    /// applied.
    pub fn transfer_from(
        &mut self,
        ctx: &Invocation,
        spender: Identity,
        from: Identity,
        to: Identity,
        amount: i128,
    ) -> (event: Result<Event, Error>)
        requires
            old(self).wf(),
        ensures
            final(self).wf(),
            event == transfer_from_result(old(self)@, *ctx, spender, from, to, amount),
            final(self)@ == after_transfer_from(old(self)@, *ctx, spender, from, to, amount),
    {
        ctx.require_auth(spender)?;
        check_nonnegative_amount(amount)?;
        renew_instance(&mut self.store, ctx.sequence);
        spend_allowance(&mut self.store, ctx.sequence, from, spender, amount)?;
        spend_balance(&mut self.store, ctx.sequence, from, amount)?;
        receive_balance(&mut self.store, ctx.sequence, to, amount)?;
        Ok(Event::Transfer { from, to, amount })
    }

    /// Destroys `amount` of what `from` holds. Fails as `transfer` does, but
    /// for the credit.
    pub fn burn(&mut self, ctx: &Invocation, from: Identity, amount: i128) -> (event: Result<
        Event,
        Error,
    >)
        requires
            old(self).wf(),
        ensures
            final(self).wf(),
            event == burn_result(old(self)@, *ctx, from, amount),
            final(self)@ == after_burn(old(self)@, *ctx, from, amount),
    {
        ctx.require_auth(from)?;
        check_nonnegative_amount(amount)?;
        renew_instance(&mut self.store, ctx.sequence);
        spend_balance(&mut self.store, ctx.sequence, from, amount)?;
        Ok(Event::Burn { from, amount })
    }

    /// Destroys `amount` of what `from` holds on the allowance that `from`
    /// gave `spender`, who must have authorized the invocation. Fails with
    /// `Unauthorized`, then with `NegativeAmount`, both before anything is
    /// touched; then as spending the allowance fails; then with
    /// `InsufficientBalance`. A burn that fails changes neither the
    /// allowance nor the balance: both are tested before either is changed.
    pub fn burn_from(
        &mut self,
        ctx: &Invocation,
        spender: Identity,
        from: Identity,
        amount: i128,
    ) -> (event: Result<Event, Error>)
        requires
            old(self).wf(),
        ensures
            final(self).wf(),
            event == burn_from_result(old(self)@, *ctx, spender, from, amount),
            final(self)@ == after_burn_from(old(self)@, *ctx, spender, from, amount),
    {
        let now = ctx.sequence;
        ctx.require_auth(spender)?;
        check_nonnegative_amount(amount)?;
        renew_instance(&mut self.store, now);
        let ghost s1 = self@;
        let ghost allowance = DataKey::Allowance(from, spender);
        let ghost balance = DataKey::Balance(from);
        check_spend_allowance(&mut self.store, now, from, spender, amount)?;
        proof {
            lemma_balance_steps_after_touched(s1, now, from, amount, allowance);
        }
        check_spend_balance(&mut self.store, now, from, amount)?;
        proof {
            let spent = after_spend_allowance(s1, now, from, spender, amount);
            lemma_spend_allowance_after_touched(s1, now, from, spender, amount, allowance);
            lemma_spend_allowance_after_touched(
                touched(s1, now, allowance),
                now,
                from,
                spender,
                amount,
                balance,
            );
            lemma_balance_steps_after_touched(spent, now, from, amount, balance);
        }
        spend_allowance(&mut self.store, now, from, spender, amount)?;
        spend_balance(&mut self.store, now, from, amount)?;
        Ok(Event::Burn { from, amount })
    }

    /// The number of decimals, at most 255.
    pub fn decimals(&mut self, ctx: &Invocation) -> (decimal: Result<u32, Error>)
        requires
            old(self).wf(),
        ensures
            final(self).wf(),
            decimal == match metadata_of(old(self)@, ctx.sequence) {
                Some(held) => Ok::<u32, Error>(held.decimal),
                None => Err(Error::NotInitialized),
            },
            decimal matches Ok(d) ==> d <= 255,
            final(self)@ == touched(old(self)@, ctx.sequence, DataKey::Metadata),
    {
        read_decimal(&mut self.store, ctx.sequence)
    }

    /// The token's name.
    pub fn name(&mut self, ctx: &Invocation) -> (name: Result<String, Error>)
        requires
            old(self).wf(),
        ensures
            final(self).wf(),
            name == match metadata_of(old(self)@, ctx.sequence) {
                Some(held) => Ok::<String, Error>(held.name),
                None => Err(Error::NotInitialized),
            },
            final(self)@ == touched(old(self)@, ctx.sequence, DataKey::Metadata),
    {
        read_name(&mut self.store, ctx.sequence)
    }

    /// The token's symbol.
    pub fn symbol(&mut self, ctx: &Invocation) -> (symbol: Result<String, Error>)
        requires
            old(self).wf(),
        ensures
            final(self).wf(),
            symbol == match metadata_of(old(self)@, ctx.sequence) {
                Some(held) => Ok::<String, Error>(held.symbol),
                None => Err(Error::NotInitialized),
            },
            final(self)@ == touched(old(self)@, ctx.sequence, DataKey::Metadata),
    {
        read_symbol(&mut self.store, ctx.sequence)
    }
}

/// Renewing the instance's leases leaves every balance and every allowance
/// as it was, at every position.
pub proof fn lemma_instance_renewed_frame(entries: Entries, now: u32, other: DataKey, at: u32)
    requires
        other != DataKey::Admin,
        other != DataKey::Metadata,
    ensures
        value_at(instance_renewed(entries, now), at, other) == value_at(entries, at, other),
{
    lemma_touched_frame(entries, now, DataKey::Admin, other, at);
    lemma_touched_frame(touched(entries, now, DataKey::Admin), now, DataKey::Metadata, other, at);
}

/// Renewing the instance's leases keeps a valid ledger valid.
pub proof fn lemma_instance_renewed_keeps_valid(entries: Entries, now: u32)
    requires
        valid(entries),
    ensures
        valid(instance_renewed(entries, now)),
{
    lemma_touched_keeps_valid(entries, now, DataKey::Admin);
    lemma_touched_keeps_valid(touched(entries, now, DataKey::Admin), now, DataKey::Metadata);
}

/// Renewing the instance's leases changes nothing that a reader sees.
pub proof fn lemma_instance_renewed_keeps_data(entries: Entries, now: u32)
    ensures
        same_data(entries, instance_renewed(entries, now), now),
{
    lemma_renewal_keeps_data(
        entries,
        now,
        DataKey::Admin,
        LEASE_LIFETIME_THRESHOLD,
        LEASE_BUMP_AMOUNT,
    );
    lemma_renewal_keeps_data(
        touched(entries, now, DataKey::Admin),
        now,
        DataKey::Metadata,
        LEASE_LIFETIME_THRESHOLD,
        LEASE_BUMP_AMOUNT,
    );
}

} // verus!
