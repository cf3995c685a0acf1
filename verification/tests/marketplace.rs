//! Scenario tests for the marketplace settlement engine.

use fortune::AccountId;
use fortune::FortuneError;
use fortune::Marketplace;
use fortune::fees::fee_amount;

/// A market, a funded buyer, a seller holding one asset: the common
/// starting point. Returns the marketplace and the market id.
fn setup(fee_rate: u64, seller: u64, asset: u64, buyer: u64, buyer_funds: u64) -> (Marketplace, u64) {
    let mut m = Marketplace::new();
    let mid = m.create_market(900, fee_rate);
    assert!(m.fund(buyer, buyer_funds));
    assert!(m.mint_asset(asset, seller));
    (m, mid)
}

#[test]
fn fee_amount_exact_values() {
    assert_eq!(fee_amount(1000, 50), 50);
    assert_eq!(fee_amount(999, 1), 0);
    assert_eq!(fee_amount(1500, 25), 37);
    assert_eq!(fee_amount(1234, 1), 1);
    assert_eq!(fee_amount(0, 999), 0);
    assert_eq!(fee_amount(1000, 0), 0);
}

#[test]
fn create_market_allocates_fresh_ids() {
    let mut m = Marketplace::new();
    let first = m.create_market(11, 50);
    let second = m.create_market(22, 75);
    assert_eq!(first, 0);
    assert_eq!(second, 1);
    let mk = m.market(first).unwrap();
    assert_eq!(mk.authority, 11);
    assert_eq!(mk.fee_rate, 50);
    assert_eq!(mk.fee_vault, AccountId::FeeVault(0));
    assert_eq!(m.balance(AccountId::FeeVault(0)), 0);
    assert_eq!(m.balance(AccountId::FeeVault(1)), 0);
    assert!(m.market(2).is_none());
}

#[test]
fn create_listing_moves_asset_into_vault() {
    let (mut m, mid) = setup(50, 1, 7, 2, 2000);
    assert_eq!(m.holder(7), Some(AccountId::User(1)));
    assert_eq!(m.create_listing(1, mid, 7, 1000), Ok(()));
    // The vault holds the unit and the seller's account no longer does.
    assert_eq!(m.holder(7), Some(AccountId::AssetVault(7)));
    let l = m.listing(mid, 7, 1).unwrap();
    assert_eq!(l.market, mid);
    assert_eq!(l.seller, 1);
    assert_eq!(l.asset_id, 7);
    assert_eq!(l.ask, 1000);
    assert!(!l.locked);
}

#[test]
fn create_listing_without_asset_is_rejected() {
    let (mut m, mid) = setup(50, 1, 7, 2, 2000);
    // Caller 3 holds nothing.
    assert_eq!(m.create_listing(3, mid, 7, 1000), Err(FortuneError::MissingAsset));
    assert!(m.listing(mid, 7, 3).is_none());
    assert_eq!(m.holder(7), Some(AccountId::User(1)));
    // An asset that does not exist cannot be deposited either.
    assert_eq!(m.create_listing(1, mid, 8, 1000), Err(FortuneError::MissingAsset));
}

#[test]
fn end_to_end_sale_with_five_percent_fee() {
    let (mut m, mid) = setup(50, 1, 7, 2, 2000);
    assert_eq!(m.create_listing(1, mid, 7, 1000), Ok(()));
    assert_eq!(m.buy(2, mid, 7, 1), Ok(()));
    // Seller gains the ask, the fee vault gains 5%, the buyer pays both.
    assert_eq!(m.balance(AccountId::User(1)), 1000);
    assert_eq!(m.balance(AccountId::FeeVault(mid)), 50);
    assert_eq!(m.balance(AccountId::User(2)), 950);
    assert_eq!(m.holder(7), Some(AccountId::User(2)));
    let l = m.listing(mid, 7, 1).unwrap();
    assert!(l.locked);
    // A second purchase of the same listing is rejected untouched.
    assert_eq!(m.buy(3, mid, 7, 1), Err(FortuneError::LockedListing));
    assert_eq!(m.balance(AccountId::User(1)), 1000);
    assert_eq!(m.balance(AccountId::FeeVault(mid)), 50);
    assert_eq!(m.holder(7), Some(AccountId::User(2)));
}

#[test]
fn buy_without_funds_changes_nothing() {
    let (mut m, mid) = setup(50, 1, 7, 2, 1049);
    assert_eq!(m.create_listing(1, mid, 7, 1000), Ok(()));
    // 1049 covers the ask but not the 50 fee on top of it.
    assert_eq!(m.buy(2, mid, 7, 1), Err(FortuneError::InsufficientFunds));
    assert_eq!(m.balance(AccountId::User(1)), 0);
    assert_eq!(m.balance(AccountId::User(2)), 1049);
    assert_eq!(m.balance(AccountId::FeeVault(mid)), 0);
    assert_eq!(m.holder(7), Some(AccountId::AssetVault(7)));
    assert!(!m.listing(mid, 7, 1).unwrap().locked);
}

#[test]
fn fee_rounds_down() {
    let (mut m, mid) = setup(1, 1, 7, 2, 5000);
    // floor(1234 * 1 / 1000) = 1.
    assert_eq!(m.create_listing(1, mid, 7, 1234), Ok(()));
    assert_eq!(m.buy(2, mid, 7, 1), Ok(()));
    assert_eq!(m.balance(AccountId::User(1)), 1234);
    assert_eq!(m.balance(AccountId::FeeVault(mid)), 1);
    assert_eq!(m.balance(AccountId::User(2)), 5000 - 1235);
}

#[test]
fn zero_ask_listing_is_accepted() {
    // No minimum-ask policy is enforced: a zero ask lists and sells for a
    // zero price and a zero fee.
    let (mut m, mid) = setup(50, 1, 7, 2, 10);
    assert_eq!(m.create_listing(1, mid, 7, 0), Ok(()));
    assert_eq!(m.buy(2, mid, 7, 1), Ok(()));
    assert_eq!(m.balance(AccountId::User(1)), 0);
    assert_eq!(m.balance(AccountId::User(2)), 10);
    assert_eq!(m.balance(AccountId::FeeVault(mid)), 0);
    assert_eq!(m.holder(7), Some(AccountId::User(2)));
}

#[test]
fn seller_buying_own_listing_pays_only_the_fee() {
    let (mut m, mid) = setup(100, 1, 7, 2, 0);
    // The seller must still cover the ask for a moment, as the transfer
    // primitive demands, even though it returns to them in the same unit.
    assert!(m.fund(1, 1500));
    assert_eq!(m.create_listing(1, mid, 7, 1000), Ok(()));
    // The ask returns to the seller; only the 10% fee leaves for good.
    assert_eq!(m.buy(1, mid, 7, 1), Ok(()));
    assert_eq!(m.balance(AccountId::User(1)), 1400);
    assert_eq!(m.balance(AccountId::FeeVault(mid)), 100);
    assert_eq!(m.holder(7), Some(AccountId::User(1)));
}

#[test]
fn ask_by_seller_changes_the_price() {
    let (mut m, mid) = setup(50, 1, 7, 2, 2000);
    assert_eq!(m.create_listing(1, mid, 7, 1000), Ok(()));
    assert_eq!(m.ask(1, mid, 7, 1, 1500), Ok(()));
    assert_eq!(m.listing(mid, 7, 1).unwrap().ask, 1500);
    // The sale settles at the new price.
    assert_eq!(m.buy(2, mid, 7, 1), Ok(()));
    assert_eq!(m.balance(AccountId::User(1)), 1500);
    assert_eq!(m.balance(AccountId::FeeVault(mid)), 75);
    assert_eq!(m.balance(AccountId::User(2)), 2000 - 1575);
}

#[test]
fn ask_by_other_caller_is_rejected() {
    let (mut m, mid) = setup(50, 1, 7, 2, 2000);
    assert_eq!(m.create_listing(1, mid, 7, 1000), Ok(()));
    assert_eq!(m.ask(2, mid, 7, 1, 1), Err(FortuneError::InvalidAskAuth));
    assert_eq!(m.listing(mid, 7, 1).unwrap().ask, 1000);
}

#[test]
fn close_unlocked_listing_returns_the_asset() {
    let (mut m, mid) = setup(50, 1, 7, 2, 2000);
    assert_eq!(m.create_listing(1, mid, 7, 1000), Ok(()));
    assert_eq!(m.close_listing(1, mid, 7), Ok(()));
    // The asset is back with the seller and no listing record remains.
    assert_eq!(m.holder(7), Some(AccountId::User(1)));
    assert!(m.listing(mid, 7, 1).is_none());
    assert_eq!(m.balance(AccountId::User(1)), 0);
    assert_eq!(m.balance(AccountId::User(2)), 2000);
    // The seller can list the same asset again afterwards.
    assert_eq!(m.create_listing(1, mid, 7, 800), Ok(()));
    assert_eq!(m.holder(7), Some(AccountId::AssetVault(7)));
}

#[test]
fn close_locked_listing_is_rejected() {
    let (mut m, mid) = setup(50, 1, 7, 2, 2000);
    assert_eq!(m.create_listing(1, mid, 7, 1000), Ok(()));
    assert_eq!(m.buy(2, mid, 7, 1), Ok(()));
    assert_eq!(m.close_listing(1, mid, 7), Err(FortuneError::LockedListing));
    // The buyer keeps the asset and the locked record remains.
    assert_eq!(m.holder(7), Some(AccountId::User(2)));
    assert!(m.listing(mid, 7, 1).unwrap().locked);
}

#[test]
fn withdraw_fees_by_authority_moves_exactly_the_amount() {
    let (mut m, mid) = setup(50, 1, 7, 2, 2000);
    assert_eq!(m.create_listing(1, mid, 7, 1000), Ok(()));
    assert_eq!(m.buy(2, mid, 7, 1), Ok(()));
    assert_eq!(m.balance(AccountId::FeeVault(mid)), 50);
    // The market authority (key 900 in the setup) withdraws 30 to caller 5.
    assert_eq!(m.withdraw_fees(900, mid, 30, 5), Ok(()));
    assert_eq!(m.balance(AccountId::FeeVault(mid)), 20);
    assert_eq!(m.balance(AccountId::User(5)), 30);
}

#[test]
fn withdraw_fees_by_other_caller_is_rejected() {
    let (mut m, mid) = setup(50, 1, 7, 2, 2000);
    assert_eq!(m.create_listing(1, mid, 7, 1000), Ok(()));
    assert_eq!(m.buy(2, mid, 7, 1), Ok(()));
    assert_eq!(m.withdraw_fees(1, mid, 30, 1), Err(FortuneError::InvalidAskAuth));
    assert_eq!(m.balance(AccountId::FeeVault(mid)), 50);
    assert_eq!(m.balance(AccountId::User(1)), 1000);
}

#[test]
fn withdraw_fees_beyond_balance_is_rejected() {
    let (mut m, mid) = setup(50, 1, 7, 2, 2000);
    assert_eq!(m.create_listing(1, mid, 7, 1000), Ok(()));
    assert_eq!(m.buy(2, mid, 7, 1), Ok(()));
    assert_eq!(m.withdraw_fees(900, mid, 51, 5), Err(FortuneError::InsufficientFunds));
    assert_eq!(m.balance(AccountId::FeeVault(mid)), 50);
    assert_eq!(m.balance(AccountId::User(5)), 0);
}

#[test]
fn list_then_close_is_a_round_trip() {
    let (mut m, mid) = setup(50, 1, 7, 2, 2000);
    assert!(m.fund(1, 123));
    let seller_before = m.balance(AccountId::User(1));
    let buyer_before = m.balance(AccountId::User(2));
    let holder_before = m.holder(7);
    assert_eq!(m.create_listing(1, mid, 7, 1000), Ok(()));
    assert_eq!(m.close_listing(1, mid, 7), Ok(()));
    assert_eq!(m.balance(AccountId::User(1)), seller_before);
    assert_eq!(m.balance(AccountId::User(2)), buyer_before);
    assert_eq!(m.holder(7), holder_before);
    assert!(m.listing(mid, 7, 1).is_none());
}

#[test]
fn fund_respects_the_supply_cap() {
    let mut m = Marketplace::new();
    assert!(m.fund(1, u64::MAX));
    assert!(!m.fund(2, 1));
    assert_eq!(m.balance(AccountId::User(1)), u64::MAX);
    assert_eq!(m.balance(AccountId::User(2)), 0);
}

#[test]
fn mint_asset_rejects_a_duplicate_id() {
    let mut m = Marketplace::new();
    assert!(m.mint_asset(7, 1));
    assert!(!m.mint_asset(7, 2));
    assert_eq!(m.holder(7), Some(AccountId::User(1)));
}

#[test]
fn buying_one_listing_leaves_the_others_alone() {
    let mut m = Marketplace::new();
    let mid = m.create_market(900, 50);
    assert!(m.fund(3, 10_000));
    assert!(m.mint_asset(7, 1));
    assert!(m.mint_asset(8, 2));
    assert_eq!(m.create_listing(1, mid, 7, 1000), Ok(()));
    assert_eq!(m.create_listing(2, mid, 8, 600), Ok(()));
    assert_eq!(m.buy(3, mid, 8, 2), Ok(()));
    // Seller 2's sale settled; seller 1's listing and asset are untouched.
    assert_eq!(m.balance(AccountId::User(2)), 600);
    assert_eq!(m.balance(AccountId::User(1)), 0);
    assert_eq!(m.balance(AccountId::FeeVault(mid)), 30);
    assert_eq!(m.holder(8), Some(AccountId::User(3)));
    assert_eq!(m.holder(7), Some(AccountId::AssetVault(7)));
    let untouched = m.listing(mid, 7, 1).unwrap();
    assert_eq!(untouched.ask, 1000);
    assert!(!untouched.locked);
    assert!(m.listing(mid, 8, 2).unwrap().locked);
}

#[test]
fn one_asset_lists_in_two_markets_only_sequentially() {
    // The asset vault is shared per asset: while one listing holds the
    // unit, no second listing of the same asset can be created, not even
    // in another market or by another seller.
    let mut m = Marketplace::new();
    let first = m.create_market(900, 50);
    let second = m.create_market(901, 10);
    assert!(m.mint_asset(7, 1));
    assert_eq!(m.create_listing(1, first, 7, 1000), Ok(()));
    assert_eq!(m.create_listing(1, second, 7, 500), Err(FortuneError::MissingAsset));
    assert_eq!(m.close_listing(1, first, 7), Ok(()));
    assert_eq!(m.create_listing(1, second, 7, 500), Ok(()));
}
