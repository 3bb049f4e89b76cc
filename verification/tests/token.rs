use token_contract::allowance::{read_allowance, spend_allowance};
use token_contract::balance::receive_balance;
use token_contract::contract::{
    check_nonnegative_amount, Event, MintStep, PaymentOrder, PaymentStatus, Token,
};
use token_contract::error::Error;
use token_contract::footprint::{footprint, Operation};
use token_contract::identity::Identity;
use token_contract::invocation::Invocation;
use token_contract::native_token::{quote_purchase, Purchase};
use token_contract::storage_types::{
    AllowanceValue, DataKey, DAY_IN_LEDGERS, LEASE_BUMP_AMOUNT, LEASE_LIFETIME_THRESHOLD,
    MARKUP_FACTOR, UNIT_SCALE,
};

fn admin() -> Identity {
    Identity::account(0, 100)
}

fn alice() -> Identity {
    Identity::account(0, 1)
}

fn bob() -> Identity {
    Identity::account(0, 2)
}

fn carol() -> Identity {
    Identity::account(0, 3)
}

fn treasury() -> Identity {
    Identity::account(9, 9)
}

fn asset() -> Identity {
    Identity::contract(5, 5)
}

fn at(sequence: u32) -> Invocation {
    Invocation::new(sequence)
}

fn signed(sequence: u32, who: Identity) -> Invocation {
    let mut ctx = Invocation::new(sequence);
    ctx.authorize(who);
    ctx
}

fn set_up(price: i128) -> Token {
    let mut token = Token::new();
    let done = token.initialize(
        &at(0),
        admin(),
        7,
        String::from("Gold"),
        String::from("GLD"),
        treasury(),
        asset(),
        price,
    );
    assert_eq!(done, Ok(()));
    token
}

fn funded(holder: Identity, amount: i128) -> Token {
    let mut token = set_up(100);
    assert_eq!(receive_balance(&mut token.store, 0, holder, amount), Ok(()));
    token
}

#[test]
fn nonnegative_amounts_pass_the_check() {
    assert_eq!(check_nonnegative_amount(0), Ok(()));
    assert_eq!(check_nonnegative_amount(1), Ok(()));
    assert_eq!(check_nonnegative_amount(i128::MAX), Ok(()));
}

#[test]
fn negative_amounts_fail_the_check() {
    assert_eq!(check_nonnegative_amount(-1), Err(Error::NegativeAmount));
    assert_eq!(check_nonnegative_amount(i128::MIN), Err(Error::NegativeAmount));
}

#[test]
fn protocol_parameters_have_their_published_values() {
    assert_eq!(UNIT_SCALE, 10_000_000);
    assert_eq!(MARKUP_FACTOR, 1027);
}

#[test]
fn invocation_knows_who_authorized_it() {
    let mut ctx = Invocation::new(12);
    assert_eq!(ctx.sequence, 12);
    assert_eq!(ctx.require_auth(alice()), Err(Error::Unauthorized));
    ctx.authorize(alice());
    assert_eq!(ctx.require_auth(alice()), Ok(()));
    assert_eq!(ctx.require_auth(bob()), Err(Error::Unauthorized));
    ctx.authorize(bob());
    assert_eq!(ctx.require_auth(alice()), Ok(()));
    assert_eq!(ctx.require_auth(bob()), Ok(()));
    assert_eq!(ctx.sequence, 12);
}

#[test]
fn fresh_instance_is_not_initialized() {
    let mut token = Token::new();
    assert_eq!(token.decimals(&at(0)), Err(Error::NotInitialized));
    assert_eq!(token.name(&at(0)), Err(Error::NotInitialized));
    assert_eq!(token.symbol(&at(0)), Err(Error::NotInitialized));
    assert_eq!(token.get_recipient_address(&at(0)), Err(Error::NotInitialized));
    assert_eq!(token.get_token_address(&at(0)), Err(Error::NotInitialized));
    assert_eq!(token.get_spot_price_per_gram(&at(0)), Err(Error::NotInitialized));
    assert_eq!(token.balance(&at(0), alice()), 0);
    assert_eq!(token.allowance(&at(0), alice(), bob()), 0);
}

#[test]
fn initialize_sets_admin_metadata_and_exchange() {
    let mut token = set_up(100);
    assert_eq!(token.decimals(&at(0)), Ok(7));
    assert_eq!(token.name(&at(0)), Ok(String::from("Gold")));
    assert_eq!(token.symbol(&at(0)), Ok(String::from("GLD")));
    assert_eq!(token.get_recipient_address(&at(0)), Ok(treasury()));
    assert_eq!(token.get_token_address(&at(0)), Ok(asset()));
    assert_eq!(token.get_spot_price_per_gram(&at(0)), Ok(100));
    assert_eq!(
        token.set_admin(&signed(0, admin()), admin()),
        Ok(Event::SetAdmin { admin: admin(), new_admin: admin() })
    );
}

#[test]
fn initialize_needs_no_authorization() {
    let mut token = Token::new();
    let done = token.initialize(
        &at(3),
        admin(),
        0,
        String::new(),
        String::new(),
        treasury(),
        asset(),
        0,
    );
    assert_eq!(done, Ok(()));
    assert_eq!(token.decimals(&at(3)), Ok(0));
    assert_eq!(token.get_spot_price_per_gram(&at(3)), Ok(0));
}

#[test]
fn initialize_twice_fails_and_changes_nothing() {
    let mut token = set_up(100);
    let again = token.initialize(
        &signed(1, bob()),
        bob(),
        3,
        String::from("Lead"),
        String::from("PB"),
        bob(),
        Identity::contract(6, 6),
        1,
    );
    assert_eq!(again, Err(Error::AlreadyInitialized));
    assert_eq!(token.decimals(&at(1)), Ok(7));
    assert_eq!(token.name(&at(1)), Ok(String::from("Gold")));
    assert_eq!(token.symbol(&at(1)), Ok(String::from("GLD")));
    assert_eq!(token.get_recipient_address(&at(1)), Ok(treasury()));
    assert_eq!(token.get_token_address(&at(1)), Ok(asset()));
    assert_eq!(token.get_spot_price_per_gram(&at(1)), Ok(100));
    assert_eq!(token.set_admin(&signed(1, bob()), bob()), Err(Error::Unauthorized));
}

#[test]
fn initialize_twice_fails_before_the_other_checks() {
    let mut token = set_up(100);
    let again = token.initialize(
        &at(1),
        bob(),
        300,
        String::new(),
        String::new(),
        bob(),
        asset(),
        -1,
    );
    assert_eq!(again, Err(Error::AlreadyInitialized));
}

#[test]
fn initialize_refuses_decimals_beyond_eight_bits() {
    let mut token = Token::new();
    let done = token.initialize(
        &at(0),
        admin(),
        256,
        String::from("Gold"),
        String::from("GLD"),
        treasury(),
        asset(),
        100,
    );
    assert_eq!(done, Err(Error::InvalidDecimals));
    assert_eq!(token.set_admin(&signed(0, admin()), bob()), Err(Error::NotInitialized));
    assert_eq!(token.get_spot_price_per_gram(&at(0)), Err(Error::NotInitialized));
    let done = token.initialize(
        &at(0),
        admin(),
        255,
        String::from("Gold"),
        String::from("GLD"),
        treasury(),
        asset(),
        100,
    );
    assert_eq!(done, Ok(()));
    assert_eq!(token.decimals(&at(0)), Ok(255));
}

#[test]
fn initialize_refuses_a_negative_price() {
    let mut token = Token::new();
    let done = token.initialize(
        &at(0),
        admin(),
        7,
        String::from("Gold"),
        String::from("GLD"),
        treasury(),
        asset(),
        -1,
    );
    assert_eq!(done, Err(Error::NegativeAmount));
    assert_eq!(token.get_recipient_address(&at(0)), Err(Error::NotInitialized));
    assert_eq!(token.set_admin(&signed(0, admin()), bob()), Err(Error::NotInitialized));
}

#[test]
fn initialize_works_again_once_the_administrator_has_lapsed() {
    let mut token = set_up(100);
    let late = LEASE_BUMP_AMOUNT + 1;
    let again = token.initialize(
        &at(late),
        bob(),
        3,
        String::from("Lead"),
        String::from("PB"),
        bob(),
        asset(),
        1,
    );
    assert_eq!(again, Ok(()));
    assert_eq!(token.name(&at(late)), Ok(String::from("Lead")));
    assert_eq!(token.get_spot_price_per_gram(&at(late)), Ok(1));
}

#[test]
fn set_admin_takes_the_authorization_of_the_admin_in_place() {
    let mut token = set_up(100);
    assert_eq!(token.set_admin(&signed(1, bob()), bob()), Err(Error::Unauthorized));
    assert_eq!(token.set_admin(&at(1), bob()), Err(Error::Unauthorized));
    assert_eq!(
        token.set_admin(&signed(1, admin()), bob()),
        Ok(Event::SetAdmin { admin: admin(), new_admin: bob() })
    );
    assert_eq!(token.set_admin(&signed(2, admin()), admin()), Err(Error::Unauthorized));
    assert_eq!(
        token.set_admin(&signed(2, bob()), carol()),
        Ok(Event::SetAdmin { admin: bob(), new_admin: carol() })
    );
}

#[test]
fn privileged_operations_fail_on_a_fresh_instance() {
    let mut token = Token::new();
    assert_eq!(token.set_admin(&signed(0, admin()), bob()), Err(Error::NotInitialized));
    assert_eq!(
        token.set_recipient_address(&signed(0, admin()), bob()),
        Err(Error::NotInitialized)
    );
    assert_eq!(token.set_token_address(&signed(0, admin()), bob()), Err(Error::NotInitialized));
    assert_eq!(
        token.set_spot_price_per_gram(&signed(0, admin()), 5),
        Err(Error::NotInitialized)
    );
}

#[test]
fn admin_sets_the_exchange_parameters_one_by_one() {
    let mut token = set_up(100);
    let ctx = signed(1, admin());
    assert_eq!(token.set_recipient_address(&ctx, bob()), Ok(()));
    assert_eq!(token.get_recipient_address(&at(1)), Ok(bob()));
    assert_eq!(token.get_token_address(&at(1)), Ok(asset()));
    assert_eq!(token.get_spot_price_per_gram(&at(1)), Ok(100));
    let other_asset = Identity::contract(6, 6);
    assert_eq!(token.set_token_address(&ctx, other_asset), Ok(()));
    assert_eq!(token.get_token_address(&at(1)), Ok(other_asset));
    assert_eq!(token.get_recipient_address(&at(1)), Ok(bob()));
    assert_eq!(token.set_spot_price_per_gram(&ctx, 250), Ok(()));
    assert_eq!(token.get_spot_price_per_gram(&at(1)), Ok(250));
    assert_eq!(token.set_spot_price_per_gram(&ctx, 0), Ok(()));
    assert_eq!(token.get_spot_price_per_gram(&at(1)), Ok(0));
}

#[test]
fn others_cannot_set_the_exchange_parameters() {
    let mut token = set_up(100);
    let ctx = signed(1, alice());
    assert_eq!(token.set_recipient_address(&ctx, alice()), Err(Error::Unauthorized));
    assert_eq!(token.set_token_address(&ctx, alice()), Err(Error::Unauthorized));
    assert_eq!(token.set_spot_price_per_gram(&ctx, 1), Err(Error::Unauthorized));
    assert_eq!(token.get_recipient_address(&at(1)), Ok(treasury()));
    assert_eq!(token.get_token_address(&at(1)), Ok(asset()));
    assert_eq!(token.get_spot_price_per_gram(&at(1)), Ok(100));
}

#[test]
fn negative_price_is_refused_before_the_admin_is_asked() {
    let mut token = set_up(100);
    assert_eq!(token.set_spot_price_per_gram(&signed(1, admin()), -1), Err(Error::NegativeAmount));
    assert_eq!(token.set_spot_price_per_gram(&signed(1, alice()), -1), Err(Error::NegativeAmount));
    let mut fresh = Token::new();
    assert_eq!(fresh.set_spot_price_per_gram(&at(0), -1), Err(Error::NegativeAmount));
    assert_eq!(token.get_spot_price_per_gram(&at(1)), Ok(100));
}

#[test]
fn mint_of_two_grams_at_price_100() {
    let mut token = set_up(100);
    let ctx = signed(1, alice());
    let due = token.mint(&ctx, alice(), 2, PaymentStatus::Pending);
    assert_eq!(
        due,
        Ok(MintStep::PaymentDue(PaymentOrder {
            asset: asset(),
            payer: alice(),
            recipient: treasury(),
            amount: 205_400,
        }))
    );
    assert_eq!(token.balance(&at(1), alice()), 0);
    let minted = token.mint(&ctx, alice(), 2, PaymentStatus::Settled);
    assert_eq!(
        minted,
        Ok(MintStep::Minted(Event::Mint { admin: admin(), to: alice(), amount: 20_000_000 }))
    );
    assert_eq!(token.balance(&at(1), alice()), 20_000_000);
    assert_eq!(token.balance(&at(1), treasury()), 0);
}

#[test]
fn mint_price_is_markup_times_grams_times_spot_price() {
    let mut token = set_up(3);
    let ctx = signed(0, bob());
    match token.mint(&ctx, bob(), 5, PaymentStatus::Pending) {
        Ok(MintStep::PaymentDue(order)) => {
            assert_eq!(order.amount, 1027 * 5 * 3);
            assert_eq!(order.amount, 15_405);
        }
        other => panic!("no order: {:?}", other),
    }
    match token.mint(&ctx, bob(), 5, PaymentStatus::Settled) {
        Ok(MintStep::Minted(Event::Mint { amount, .. })) => assert_eq!(amount, 50_000_000),
        other => panic!("no mint: {:?}", other),
    }
}

#[test]
fn mint_adds_to_what_the_buyer_holds() {
    let mut token = funded(alice(), 5);
    let ctx = signed(0, alice());
    assert!(token.mint(&ctx, alice(), 1, PaymentStatus::Settled).is_ok());
    assert_eq!(token.balance(&at(0), alice()), 10_000_005);
    assert!(token.mint(&ctx, alice(), 1, PaymentStatus::Settled).is_ok());
    assert_eq!(token.balance(&at(0), alice()), 20_000_005);
}

#[test]
fn mint_of_nothing_orders_a_payment_of_nothing() {
    let mut token = set_up(100);
    let ctx = signed(0, alice());
    assert_eq!(
        token.mint(&ctx, alice(), 0, PaymentStatus::Pending),
        Ok(MintStep::PaymentDue(PaymentOrder {
            asset: asset(),
            payer: alice(),
            recipient: treasury(),
            amount: 0,
        }))
    );
    assert_eq!(
        token.mint(&ctx, alice(), 0, PaymentStatus::Settled),
        Ok(MintStep::Minted(Event::Mint { admin: admin(), to: alice(), amount: 0 }))
    );
}

#[test]
fn mint_at_price_zero_is_free() {
    let mut token = set_up(0);
    let ctx = signed(0, alice());
    match token.mint(&ctx, alice(), 4, PaymentStatus::Pending) {
        Ok(MintStep::PaymentDue(order)) => assert_eq!(order.amount, 0),
        other => panic!("no order: {:?}", other),
    }
}

#[test]
fn mint_follows_the_parameters_in_place() {
    let mut token = set_up(100);
    let by_admin = signed(1, admin());
    assert_eq!(token.set_spot_price_per_gram(&by_admin, 7), Ok(()));
    assert_eq!(token.set_recipient_address(&by_admin, carol()), Ok(()));
    assert_eq!(
        token.set_admin(&by_admin, bob()),
        Ok(Event::SetAdmin { admin: admin(), new_admin: bob() })
    );
    let ctx = signed(2, alice());
    assert_eq!(
        token.mint(&ctx, alice(), 1, PaymentStatus::Pending),
        Ok(MintStep::PaymentDue(PaymentOrder {
            asset: asset(),
            payer: alice(),
            recipient: carol(),
            amount: 7_189,
        }))
    );
    assert_eq!(
        token.mint(&ctx, alice(), 1, PaymentStatus::Settled),
        Ok(MintStep::Minted(Event::Mint { admin: bob(), to: alice(), amount: 10_000_000 }))
    );
}

#[test]
fn mint_refuses_a_negative_purchase_first() {
    let mut token = set_up(100);
    assert_eq!(
        token.mint(&signed(0, alice()), alice(), -1, PaymentStatus::Pending),
        Err(Error::NegativeAmount)
    );
    assert_eq!(
        token.mint(&at(0), alice(), -1, PaymentStatus::Settled),
        Err(Error::NegativeAmount)
    );
    let mut fresh = Token::new();
    assert_eq!(
        fresh.mint(&at(0), alice(), -1, PaymentStatus::Pending),
        Err(Error::NegativeAmount)
    );
    assert_eq!(token.balance(&at(0), alice()), 0);
}

#[test]
fn mint_needs_an_initialized_instance() {
    let mut token = Token::new();
    assert_eq!(
        token.mint(&signed(0, alice()), alice(), 1, PaymentStatus::Pending),
        Err(Error::NotInitialized)
    );
    assert_eq!(
        token.mint(&at(0), alice(), 1, PaymentStatus::Pending),
        Err(Error::NotInitialized)
    );
}

#[test]
fn mint_needs_the_authorization_of_the_buyer() {
    let mut token = set_up(100);
    assert_eq!(
        token.mint(&signed(0, bob()), alice(), 1, PaymentStatus::Pending),
        Err(Error::Unauthorized)
    );
    assert_eq!(
        token.mint(&signed(0, admin()), alice(), 1, PaymentStatus::Settled),
        Err(Error::Unauthorized)
    );
    assert_eq!(token.balance(&at(0), alice()), 0);
}

#[test]
fn mint_fails_where_the_tokens_overflow() {
    let mut token = set_up(0);
    let grams = i128::MAX / 10_000_000 + 1;
    assert_eq!(
        token.mint(&signed(0, alice()), alice(), grams, PaymentStatus::Pending),
        Err(Error::Overflow)
    );
    let most = i128::MAX / 10_000_000;
    match token.mint(&signed(0, alice()), alice(), most, PaymentStatus::Pending) {
        Ok(MintStep::PaymentDue(order)) => assert_eq!(order.amount, 0),
        other => panic!("no order: {:?}", other),
    }
}

#[test]
fn mint_fails_where_the_price_overflows() {
    let mut token = set_up(i128::MAX / 1027);
    assert!(token.mint(&signed(0, alice()), alice(), 1, PaymentStatus::Pending).is_ok());
    assert_eq!(
        token.mint(&signed(0, alice()), alice(), 2, PaymentStatus::Pending),
        Err(Error::Overflow)
    );
    assert_eq!(
        token.mint(&signed(0, alice()), alice(), 2, PaymentStatus::Settled),
        Err(Error::Overflow)
    );
    assert_eq!(token.balance(&at(0), alice()), 0);
}

#[test]
fn mint_fails_where_the_credit_overflows_after_the_payment() {
    let mut token = funded(alice(), i128::MAX);
    let ctx = signed(0, alice());
    assert!(token.mint(&ctx, alice(), 1, PaymentStatus::Pending).is_ok());
    assert_eq!(token.mint(&ctx, alice(), 1, PaymentStatus::Settled), Err(Error::Overflow));
    assert_eq!(token.balance(&at(0), alice()), i128::MAX);
}

#[test]
fn mint_fails_once_a_parameter_has_lapsed() {
    let mut token = set_up(100);
    let mut now = 0;
    while now < LEASE_BUMP_AMOUNT {
        now += LEASE_LIFETIME_THRESHOLD;
        assert_eq!(
            token.set_admin(&signed(now, admin()), admin()),
            Ok(Event::SetAdmin { admin: admin(), new_admin: admin() })
        );
    }
    assert_eq!(token.get_spot_price_per_gram(&at(now)), Err(Error::NotInitialized));
    assert_eq!(
        token.mint(&signed(now, alice()), alice(), 1, PaymentStatus::Pending),
        Err(Error::NotInitialized)
    );
}

#[test]
fn approve_stores_the_allowance_and_reports_it() {
    let mut token = set_up(100);
    assert_eq!(
        token.approve(&signed(1, alice()), alice(), bob(), 500, 1000),
        Ok(Event::Approve { from: alice(), spender: bob(), amount: 500, expiration_ledger: 1000 })
    );
    assert_eq!(token.allowance(&at(1), alice(), bob()), 500);
    assert_eq!(token.allowance(&at(1), bob(), alice()), 0);
}

#[test]
fn approve_replaces_the_allowance() {
    let mut token = set_up(100);
    assert!(token.approve(&signed(1, alice()), alice(), bob(), 500, 1000).is_ok());
    assert!(token.approve(&signed(1, alice()), alice(), bob(), 20, 1000).is_ok());
    assert_eq!(token.allowance(&at(1), alice(), bob()), 20);
    assert!(token.approve(&signed(1, alice()), alice(), bob(), 0, 1000).is_ok());
    assert_eq!(token.allowance(&at(1), alice(), bob()), 0);
}

#[test]
fn approve_needs_the_authorization_of_the_owner() {
    let mut token = set_up(100);
    assert_eq!(
        token.approve(&signed(1, bob()), alice(), bob(), 500, 1000),
        Err(Error::Unauthorized)
    );
    assert_eq!(
        token.approve(&signed(1, bob()), alice(), bob(), -1, 1000),
        Err(Error::Unauthorized)
    );
    assert_eq!(token.allowance(&at(1), alice(), bob()), 0);
}

#[test]
fn approve_refuses_a_negative_amount() {
    let mut token = set_up(100);
    assert!(token.approve(&signed(1, alice()), alice(), bob(), 500, 1000).is_ok());
    assert_eq!(
        token.approve(&signed(1, alice()), alice(), bob(), -1, 2000),
        Err(Error::NegativeAmount)
    );
    assert_eq!(token.allowance(&at(1), alice(), bob()), 500);
}

#[test]
fn allowance_shows_what_is_stored_after_the_expiration() {
    let mut token = set_up(100);
    assert!(token.approve(&signed(1, alice()), alice(), bob(), 500, 10).is_ok());
    assert_eq!(token.allowance(&at(11), alice(), bob()), 500);
    assert_eq!(
        token.transfer_from(&signed(11, bob()), bob(), alice(), carol(), 1),
        Err(Error::AllowanceExpired)
    );
}

#[test]
fn transfer_moves_the_amount() {
    let mut token = funded(alice(), 100);
    assert_eq!(
        token.transfer(&signed(1, alice()), alice(), bob(), 30),
        Ok(Event::Transfer { from: alice(), to: bob(), amount: 30 })
    );
    assert_eq!(token.balance(&at(1), alice()), 70);
    assert_eq!(token.balance(&at(1), bob()), 30);
    assert_eq!(token.balance(&at(1), carol()), 0);
}

#[test]
fn transfer_there_and_back_restores_both_balances() {
    let mut token = funded(alice(), 100);
    assert_eq!(receive_balance(&mut token.store, 0, bob(), 11), Ok(()));
    assert!(token.transfer(&signed(1, alice()), alice(), bob(), 100).is_ok());
    assert_eq!(token.balance(&at(1), alice()), 0);
    assert_eq!(token.balance(&at(1), bob()), 111);
    assert!(token.transfer(&signed(2, bob()), bob(), alice(), 100).is_ok());
    assert_eq!(token.balance(&at(2), alice()), 100);
    assert_eq!(token.balance(&at(2), bob()), 11);
}

#[test]
fn transfer_back_still_works_at_the_lifetime_threshold() {
    let mut token = funded(alice(), 100);
    assert!(token.transfer(&signed(5, alice()), alice(), bob(), 40).is_ok());
    let later = 5 + LEASE_LIFETIME_THRESHOLD;
    assert!(token.transfer(&signed(later, bob()), bob(), alice(), 40).is_ok());
    assert_eq!(token.balance(&at(later), alice()), 100);
    assert_eq!(token.balance(&at(later), bob()), 0);
}

#[test]
fn transfer_to_oneself_changes_nothing() {
    let mut token = funded(alice(), 100);
    assert_eq!(
        token.transfer(&signed(1, alice()), alice(), alice(), 60),
        Ok(Event::Transfer { from: alice(), to: alice(), amount: 60 })
    );
    assert_eq!(token.balance(&at(1), alice()), 100);
    assert_eq!(
        token.transfer(&signed(1, alice()), alice(), alice(), 101),
        Err(Error::InsufficientBalance)
    );
}

#[test]
fn transfer_of_nothing_succeeds() {
    let mut token = set_up(100);
    assert_eq!(
        token.transfer(&signed(1, alice()), alice(), bob(), 0),
        Ok(Event::Transfer { from: alice(), to: bob(), amount: 0 })
    );
    assert_eq!(token.balance(&at(1), alice()), 0);
    assert_eq!(token.balance(&at(1), bob()), 0);
}

#[test]
fn transfer_beyond_the_balance_fails_and_moves_nothing() {
    let mut token = funded(alice(), 100);
    assert_eq!(
        token.transfer(&signed(1, alice()), alice(), bob(), 101),
        Err(Error::InsufficientBalance)
    );
    assert_eq!(token.balance(&at(1), alice()), 100);
    assert_eq!(token.balance(&at(1), bob()), 0);
}

#[test]
fn transfer_needs_the_authorization_of_the_sender() {
    let mut token = funded(alice(), 100);
    assert_eq!(token.transfer(&signed(1, bob()), alice(), bob(), 10), Err(Error::Unauthorized));
    assert_eq!(token.transfer(&at(1), alice(), bob(), 10), Err(Error::Unauthorized));
    assert_eq!(token.transfer(&at(1), alice(), bob(), -10), Err(Error::Unauthorized));
    assert_eq!(token.balance(&at(1), alice()), 100);
}

#[test]
fn transfer_refuses_a_negative_amount() {
    let mut token = funded(alice(), 100);
    assert_eq!(
        token.transfer(&signed(1, alice()), alice(), bob(), -1),
        Err(Error::NegativeAmount)
    );
    assert_eq!(token.balance(&at(1), alice()), 100);
    assert_eq!(token.balance(&at(1), bob()), 0);
    assert_eq!(token.store.live_until(DataKey::Balance(bob())), None);
}

#[test]
fn transfer_that_overflows_the_receiver_moves_nothing() {
    let mut token = funded(alice(), 100);
    assert_eq!(receive_balance(&mut token.store, 0, bob(), i128::MAX), Ok(()));
    assert_eq!(token.transfer(&signed(1, alice()), alice(), bob(), 1), Err(Error::Overflow));
    assert_eq!(token.balance(&at(1), alice()), 100);
    assert_eq!(token.balance(&at(1), bob()), i128::MAX);
    assert_eq!(token.transfer(&signed(1, alice()), alice(), bob(), 0), Ok(Event::Transfer {
        from: alice(),
        to: bob(),
        amount: 0,
    }));
}

#[test]
fn transfer_beyond_the_balance_fails_before_the_receiver_is_looked_at() {
    let mut token = funded(alice(), 100);
    assert_eq!(receive_balance(&mut token.store, 0, bob(), i128::MAX), Ok(()));
    assert_eq!(
        token.transfer(&signed(1, alice()), alice(), bob(), 101),
        Err(Error::InsufficientBalance)
    );
    assert_eq!(token.balance(&at(1), alice()), 100);
    assert_eq!(token.balance(&at(1), bob()), i128::MAX);
}

#[test]
fn transfer_of_the_whole_range_to_oneself_succeeds() {
    let mut token = funded(alice(), i128::MAX);
    assert_eq!(
        token.transfer(&signed(1, alice()), alice(), alice(), i128::MAX),
        Ok(Event::Transfer { from: alice(), to: alice(), amount: i128::MAX })
    );
    assert_eq!(token.balance(&at(1), alice()), i128::MAX);
}

#[test]
fn failed_transfer_renews_leases_and_writes_nothing() {
    let mut token = funded(alice(), 100);
    assert_eq!(
        token.transfer(&signed(DAY_IN_LEDGERS + 1, alice()), alice(), bob(), 101),
        Err(Error::InsufficientBalance)
    );
    assert_eq!(
        token.store.live_until(DataKey::Balance(alice())),
        Some(DAY_IN_LEDGERS + 1 + LEASE_BUMP_AMOUNT)
    );
    assert_eq!(token.store.live_until(DataKey::Balance(bob())), None);
}

#[test]
fn transfer_from_spends_the_allowance_and_moves_the_amount() {
    let mut token = funded(alice(), 100);
    assert!(token.approve(&signed(1, alice()), alice(), bob(), 50, 1000).is_ok());
    assert_eq!(
        token.transfer_from(&signed(2, bob()), bob(), alice(), carol(), 20),
        Ok(Event::Transfer { from: alice(), to: carol(), amount: 20 })
    );
    assert_eq!(token.allowance(&at(2), alice(), bob()), 30);
    assert_eq!(token.balance(&at(2), alice()), 80);
    assert_eq!(token.balance(&at(2), carol()), 20);
    assert_eq!(token.balance(&at(2), bob()), 0);
}

#[test]
fn transfer_from_needs_the_authorization_of_the_spender() {
    let mut token = funded(alice(), 100);
    assert!(token.approve(&signed(1, alice()), alice(), bob(), 50, 1000).is_ok());
    assert_eq!(
        token.transfer_from(&signed(2, alice()), bob(), alice(), carol(), 20),
        Err(Error::Unauthorized)
    );
    assert_eq!(token.allowance(&at(2), alice(), bob()), 50);
    assert_eq!(token.balance(&at(2), alice()), 100);
}

#[test]
fn transfer_from_refuses_a_negative_amount() {
    let mut token = funded(alice(), 100);
    assert!(token.approve(&signed(1, alice()), alice(), bob(), 50, 1000).is_ok());
    assert_eq!(
        token.transfer_from(&signed(2, bob()), bob(), alice(), carol(), -20),
        Err(Error::NegativeAmount)
    );
    assert_eq!(token.allowance(&at(2), alice(), bob()), 50);
    assert_eq!(token.balance(&at(2), alice()), 100);
}

#[test]
fn transfer_from_beyond_the_allowance_fails_and_moves_nothing() {
    let mut token = funded(alice(), 100);
    assert!(token.approve(&signed(1, alice()), alice(), bob(), 50, 1000).is_ok());
    assert_eq!(
        token.transfer_from(&signed(2, bob()), bob(), alice(), carol(), 51),
        Err(Error::InsufficientAllowance)
    );
    assert_eq!(token.allowance(&at(2), alice(), bob()), 50);
    assert_eq!(token.balance(&at(2), alice()), 100);
    assert_eq!(token.balance(&at(2), carol()), 0);
}

#[test]
fn transfer_from_after_the_expiration_fails() {
    let mut token = funded(alice(), 100);
    assert!(token.approve(&signed(1, alice()), alice(), bob(), 50, 10).is_ok());
    assert!(token.transfer_from(&signed(10, bob()), bob(), alice(), carol(), 5).is_ok());
    assert_eq!(
        token.transfer_from(&signed(11, bob()), bob(), alice(), carol(), 5),
        Err(Error::AllowanceExpired)
    );
    assert_eq!(token.balance(&at(11), alice()), 95);
    assert_eq!(token.balance(&at(11), carol()), 5);
}

#[test]
fn transfer_from_beyond_the_balance_keeps_the_allowance_spent() {
    let mut token = funded(alice(), 10);
    assert!(token.approve(&signed(1, alice()), alice(), bob(), 50, 1000).is_ok());
    assert_eq!(
        token.transfer_from(&signed(2, bob()), bob(), alice(), carol(), 20),
        Err(Error::InsufficientBalance)
    );
    assert_eq!(token.allowance(&at(2), alice(), bob()), 30);
    assert_eq!(token.balance(&at(2), alice()), 10);
    assert_eq!(token.balance(&at(2), carol()), 0);
}

#[test]
fn burn_destroys_the_amount() {
    let mut token = funded(alice(), 100);
    assert_eq!(
        token.burn(&signed(1, alice()), alice(), 40),
        Ok(Event::Burn { from: alice(), amount: 40 })
    );
    assert_eq!(token.balance(&at(1), alice()), 60);
}

#[test]
fn burn_beyond_the_balance_fails_and_destroys_nothing() {
    let mut token = funded(alice(), 100);
    assert_eq!(token.burn(&signed(1, alice()), alice(), 101), Err(Error::InsufficientBalance));
    assert_eq!(token.balance(&at(1), alice()), 100);
}

#[test]
fn burn_needs_the_authorization_of_the_holder() {
    let mut token = funded(alice(), 100);
    assert_eq!(token.burn(&signed(1, bob()), alice(), 1), Err(Error::Unauthorized));
    assert_eq!(token.burn(&signed(1, admin()), alice(), 1), Err(Error::Unauthorized));
    assert_eq!(token.balance(&at(1), alice()), 100);
}

#[test]
fn burn_refuses_a_negative_amount() {
    let mut token = funded(alice(), 100);
    assert_eq!(token.burn(&signed(1, alice()), alice(), -1), Err(Error::NegativeAmount));
    assert_eq!(token.balance(&at(1), alice()), 100);
}

#[test]
fn burn_from_spends_the_allowance_and_destroys_the_amount() {
    let mut token = funded(alice(), 100);
    assert!(token.approve(&signed(1, alice()), alice(), bob(), 50, 1000).is_ok());
    assert_eq!(
        token.burn_from(&signed(2, bob()), bob(), alice(), 20),
        Ok(Event::Burn { from: alice(), amount: 20 })
    );
    assert_eq!(token.allowance(&at(2), alice(), bob()), 30);
    assert_eq!(token.balance(&at(2), alice()), 80);
    assert_eq!(token.balance(&at(2), bob()), 0);
}

#[test]
fn burn_from_fails_as_transfer_from_does() {
    let mut token = funded(alice(), 10);
    assert!(token.approve(&signed(1, alice()), alice(), bob(), 50, 5).is_ok());
    assert_eq!(
        token.burn_from(&signed(2, alice()), bob(), alice(), 1),
        Err(Error::Unauthorized)
    );
    assert_eq!(
        token.burn_from(&signed(2, bob()), bob(), alice(), -1),
        Err(Error::NegativeAmount)
    );
    assert_eq!(
        token.burn_from(&signed(2, bob()), bob(), alice(), 51),
        Err(Error::InsufficientAllowance)
    );
    assert_eq!(token.allowance(&at(2), alice(), bob()), 50);
    assert_eq!(
        token.burn_from(&signed(2, bob()), bob(), alice(), 11),
        Err(Error::InsufficientBalance)
    );
    assert_eq!(token.allowance(&at(2), alice(), bob()), 50);
    assert_eq!(token.balance(&at(2), alice()), 10);
    assert_eq!(
        token.burn_from(&signed(2, bob()), bob(), alice(), 10),
        Ok(Event::Burn { from: alice(), amount: 10 })
    );
    assert_eq!(token.allowance(&at(2), alice(), bob()), 40);
    assert_eq!(token.balance(&at(2), alice()), 0);
    assert!(token.mint(&signed(2, alice()), alice(), 1, PaymentStatus::Settled).is_ok());
    assert_eq!(token.balance(&at(2), alice()), 10_000_000);
    assert_eq!(
        token.burn_from(&signed(6, bob()), bob(), alice(), 1),
        Err(Error::AllowanceExpired)
    );
    assert_eq!(token.balance(&at(6), alice()), 10_000_000);
    assert_eq!(token.allowance(&at(6), alice(), bob()), 40);
}

#[test]
fn burn_from_on_a_spent_allowance_leaves_it_as_it_was() {
    let mut token = set_up(100);
    assert!(token.approve(&signed(1, alice()), alice(), bob(), 100, 50).is_ok());
    assert_eq!(
        token.burn_from(&signed(2, bob()), bob(), alice(), 30),
        Err(Error::InsufficientBalance)
    );
    assert_eq!(token.allowance(&at(2), alice(), bob()), 100);
    assert_eq!(token.balance(&at(2), alice()), 0);
}

#[test]
fn balance_is_never_negative_after_a_run_of_operations() {
    let mut token = funded(alice(), 10);
    let people = [alice(), bob(), carol()];
    let amounts = [0, 3, 11, -1, 7, 10];
    let mut step: u32 = 1;
    for from in people {
        for to in people {
            for amount in amounts {
                let _ = token.transfer(&signed(step, from), from, to, amount);
                let _ = token.burn(&signed(step, to), to, amount / 2);
                for who in people {
                    assert!(token.balance(&at(step), who) >= 0);
                }
                step += 1;
            }
        }
    }
}

#[test]
fn every_operation_keeps_the_instance_alive() {
    let mut token = funded(alice(), 10);
    let mut now = 0;
    while now < 3 * LEASE_BUMP_AMOUNT {
        now += LEASE_LIFETIME_THRESHOLD;
        assert_eq!(token.balance(&at(now), alice()), 10);
    }
    assert_eq!(token.decimals(&at(now)), Ok(7));
    assert_eq!(
        token.set_admin(&signed(now, admin()), bob()),
        Ok(Event::SetAdmin { admin: admin(), new_admin: bob() })
    );
}

#[test]
fn operations_on_balances_leave_the_settings_alone() {
    let mut token = funded(alice(), 100);
    assert!(token.approve(&signed(1, alice()), alice(), bob(), 50, 1000).is_ok());
    assert!(token.transfer(&signed(1, alice()), alice(), bob(), 10).is_ok());
    assert!(token.transfer_from(&signed(1, bob()), bob(), alice(), carol(), 10).is_ok());
    assert!(token.burn(&signed(1, alice()), alice(), 10).is_ok());
    assert!(token.burn_from(&signed(1, bob()), bob(), alice(), 10).is_ok());
    assert!(token.mint(&signed(1, carol()), carol(), 1, PaymentStatus::Settled).is_ok());
    assert_eq!(token.decimals(&at(1)), Ok(7));
    assert_eq!(token.name(&at(1)), Ok(String::from("Gold")));
    assert_eq!(token.symbol(&at(1)), Ok(String::from("GLD")));
    assert_eq!(token.get_recipient_address(&at(1)), Ok(treasury()));
    assert_eq!(token.get_token_address(&at(1)), Ok(asset()));
    assert_eq!(token.get_spot_price_per_gram(&at(1)), Ok(100));
    assert_eq!(
        token.set_admin(&signed(1, admin()), admin()),
        Ok(Event::SetAdmin { admin: admin(), new_admin: admin() })
    );
}

#[test]
fn setting_a_parameter_leaves_the_balances_alone() {
    let mut token = funded(alice(), 100);
    let ctx = signed(1, admin());
    assert_eq!(token.set_recipient_address(&ctx, bob()), Ok(()));
    assert_eq!(token.set_token_address(&ctx, carol()), Ok(()));
    assert_eq!(token.set_spot_price_per_gram(&ctx, 1), Ok(()));
    assert!(token.set_admin(&ctx, bob()).is_ok());
    assert_eq!(token.balance(&at(1), alice()), 100);
    assert_eq!(token.balance(&at(1), bob()), 0);
}

#[test]
fn tokens_are_made_by_mint_and_lost_by_burn_only() {
    let mut token = funded(alice(), 100);
    let everyone = [alice(), bob(), carol()];
    let total = |token: &mut Token, now: u32| -> i128 {
        everyone.iter().map(|who| token.balance(&at(now), *who)).sum()
    };
    assert_eq!(total(&mut token, 1), 100);
    assert!(token.transfer(&signed(1, alice()), alice(), bob(), 30).is_ok());
    assert!(token.transfer(&signed(1, bob()), bob(), carol(), 5).is_ok());
    assert!(token.transfer(&signed(1, bob()), bob(), carol(), 500).is_err());
    assert_eq!(total(&mut token, 1), 100);
    assert!(token.approve(&signed(1, carol()), carol(), alice(), 5, 10).is_ok());
    assert!(token.transfer_from(&signed(1, alice()), alice(), carol(), bob(), 2).is_ok());
    assert_eq!(total(&mut token, 1), 100);
    assert!(token.burn(&signed(1, bob()), bob(), 7).is_ok());
    assert_eq!(total(&mut token, 1), 93);
    assert!(token.mint(&signed(1, carol()), carol(), 3, PaymentStatus::Pending).is_ok());
    assert_eq!(total(&mut token, 1), 93);
    assert!(token.mint(&signed(1, carol()), carol(), 3, PaymentStatus::Settled).is_ok());
    assert_eq!(total(&mut token, 1), 30_000_093);
}

#[test]
fn purchase_credits_scaled_units_at_the_marked_up_price() {
    assert_eq!(quote_purchase(2, 100), Ok(Purchase { tokens: 20_000_000, price: 205_400 }));
    assert_eq!(quote_purchase(1, 1), Ok(Purchase { tokens: 10_000_000, price: 1_027 }));
    assert_eq!(quote_purchase(0, 100), Ok(Purchase { tokens: 0, price: 0 }));
    assert_eq!(quote_purchase(7, 0), Ok(Purchase { tokens: 70_000_000, price: 0 }));
}

#[test]
fn purchase_refuses_negative_arguments() {
    assert_eq!(quote_purchase(-1, 100), Err(Error::NegativeAmount));
    assert_eq!(quote_purchase(1, -100), Err(Error::NegativeAmount));
    assert_eq!(quote_purchase(i128::MIN, i128::MIN), Err(Error::NegativeAmount));
}

#[test]
fn purchase_fails_just_beyond_the_range_of_amounts() {
    let most_grams = i128::MAX / 10_000_000;
    assert_eq!(
        quote_purchase(most_grams, 0),
        Ok(Purchase { tokens: most_grams * 10_000_000, price: 0 })
    );
    assert_eq!(quote_purchase(most_grams + 1, 0), Err(Error::Overflow));
    let highest_price = i128::MAX / 1027;
    assert_eq!(
        quote_purchase(1, highest_price),
        Ok(Purchase { tokens: 10_000_000, price: highest_price * 1027 })
    );
    assert_eq!(quote_purchase(1, highest_price + 1), Err(Error::Overflow));
    assert_eq!(quote_purchase(i128::MAX, i128::MAX), Err(Error::Overflow));
}

#[test]
fn footprint_lists_the_keys_of_each_operation() {
    let instance = vec![DataKey::Admin, DataKey::Metadata];
    let with = |more: &[DataKey]| -> Vec<DataKey> {
        let mut keys = instance.clone();
        keys.extend_from_slice(more);
        keys
    };
    let exchange = with(&[DataKey::PaymentAsset, DataKey::Recipient, DataKey::SpotPrice]);
    assert_eq!(footprint(Operation::Initialize), exchange);
    let mut mint = exchange.clone();
    mint.push(DataKey::Balance(alice()));
    assert_eq!(footprint(Operation::Mint { to: alice() }), mint);
    assert_eq!(footprint(Operation::SetAdmin), instance);
    assert_eq!(footprint(Operation::SetRecipientAddress), with(&[DataKey::Recipient]));
    assert_eq!(footprint(Operation::GetRecipientAddress), with(&[DataKey::Recipient]));
    assert_eq!(footprint(Operation::SetTokenAddress), with(&[DataKey::PaymentAsset]));
    assert_eq!(footprint(Operation::GetTokenAddress), with(&[DataKey::PaymentAsset]));
    assert_eq!(footprint(Operation::SetSpotPricePerGram), with(&[DataKey::SpotPrice]));
    assert_eq!(footprint(Operation::GetSpotPricePerGram), with(&[DataKey::SpotPrice]));
    assert_eq!(
        footprint(Operation::Allowance { from: alice(), spender: bob() }),
        with(&[DataKey::Allowance(alice(), bob())])
    );
    assert_eq!(
        footprint(Operation::Approve { from: alice(), spender: bob() }),
        with(&[DataKey::Allowance(alice(), bob())])
    );
    assert_eq!(
        footprint(Operation::Balance { id: alice() }),
        with(&[DataKey::Balance(alice())])
    );
    assert_eq!(
        footprint(Operation::Transfer { from: alice(), to: bob() }),
        with(&[DataKey::Balance(alice()), DataKey::Balance(bob())])
    );
    assert_eq!(
        footprint(Operation::Transfer { from: alice(), to: alice() }),
        with(&[DataKey::Balance(alice())])
    );
    assert_eq!(
        footprint(Operation::TransferFrom { spender: carol(), from: alice(), to: bob() }),
        with(&[
            DataKey::Allowance(alice(), carol()),
            DataKey::Balance(alice()),
            DataKey::Balance(bob())
        ])
    );
    assert_eq!(
        footprint(Operation::TransferFrom { spender: carol(), from: alice(), to: alice() }),
        with(&[DataKey::Allowance(alice(), carol()), DataKey::Balance(alice())])
    );
    assert_eq!(footprint(Operation::Burn { from: alice() }), with(&[DataKey::Balance(alice())]));
    assert_eq!(
        footprint(Operation::BurnFrom { spender: bob(), from: alice() }),
        with(&[DataKey::Allowance(alice(), bob()), DataKey::Balance(alice())])
    );
    assert_eq!(footprint(Operation::Metadata), vec![DataKey::Metadata]);
}

fn copy_of(token: &Token, now: u32, keys: &[DataKey]) -> Token {
    let mut copy = Token::new();
    for key in keys {
        if let Some(value) = token.store.read(now, *key) {
            copy.store.write(now, *key, value);
        }
    }
    copy
}

#[test]
fn operation_on_its_footprint_alone_ends_as_on_the_whole_ledger() {
    let mut whole = funded(alice(), 100);
    assert_eq!(receive_balance(&mut whole.store, 0, carol(), 9), Ok(()));
    assert!(whole.approve(&signed(1, alice()), alice(), carol(), 40, 50).is_ok());
    let operation = Operation::TransferFrom { spender: carol(), from: alice(), to: bob() };
    let keys = footprint(operation);
    let mut part = copy_of(&whole, 2, &keys);
    let ctx = signed(2, carol());
    let on_whole = whole.transfer_from(&ctx, carol(), alice(), bob(), 30);
    let on_part = part.transfer_from(&ctx, carol(), alice(), bob(), 30);
    assert_eq!(on_whole, Ok(Event::Transfer { from: alice(), to: bob(), amount: 30 }));
    assert_eq!(on_part, on_whole);
    for who in [alice(), bob()] {
        assert_eq!(part.balance(&at(2), who), whole.balance(&at(2), who));
    }
    assert_eq!(
        part.allowance(&at(2), alice(), carol()),
        whole.allowance(&at(2), alice(), carol())
    );
    assert_eq!(whole.balance(&at(2), carol()), 9);
    assert_eq!(part.balance(&at(2), carol()), 0);
    let failed_on_whole = whole.transfer_from(&ctx, carol(), alice(), bob(), 11);
    let failed_on_part = part.transfer_from(&ctx, carol(), alice(), bob(), 11);
    assert_eq!(failed_on_whole, Err(Error::InsufficientAllowance));
    assert_eq!(failed_on_part, failed_on_whole);
}

#[test]
fn approved_allowance_is_spent_down_and_not_beyond() {
    let mut token = set_up(100);
    assert!(token.approve(&signed(1, alice()), alice(), bob(), 100, 50).is_ok());
    assert_eq!(spend_allowance(&mut token.store, 2, alice(), bob(), 40), Ok(()));
    let held = read_allowance(&mut token.store, 2, alice(), bob());
    assert_eq!(held, AllowanceValue { amount: 60, expiration_ledger: 50 });
    assert_eq!(
        spend_allowance(&mut token.store, 3, alice(), bob(), 61),
        Err(Error::InsufficientAllowance)
    );
    assert_eq!(token.allowance(&at(3), alice(), bob()), 60);
}
