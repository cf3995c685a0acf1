//! Laws that relate several operations of the settlement engine.
//!
//! Each operation's own contract pins down one transition; these proof
//! functions state what follows for sequences of operations on the same
//! listing.

use vstd::prelude::*;

use crate::errors::FortuneError;
use crate::ids::AccountId;
use crate::market::Marketplace;
use crate::market::buy_result;
use crate::market::close_listing_result;
use crate::market::create_listing_result;

verus! {

/// A listing sells at most once. Once one purchase of the listing under
/// `(market_id, asset_id, seller)` has succeeded, any further purchase of
/// the same listing, by any buyer, is rejected with `LockedListing` and
/// changes nothing.
pub proof fn lemma_buy_at_most_once(
    s0: Marketplace,
    s1: Marketplace,
    s2: Marketplace,
    first_buyer: u64,
    second_buyer: u64,
    market_id: u64,
    asset_id: u64,
    seller: u64,
    r2: Result<(), FortuneError>,
)
    requires
        buy_result(s0, s1, first_buyer, market_id, asset_id, seller, Ok(())),
        buy_result(s1, s2, second_buyer, market_id, asset_id, seller, r2),
    ensures
        r2 == Err::<(), FortuneError>(FortuneError::LockedListing),
        s2 == s1,
{
    assert(s1.listing_at(market_id, asset_id, seller).locked);
}

/// Listing and withdrawing is a round trip. A successful deposit followed
/// by a closure of the same listing, with no purchase in between, always
/// succeeds, returns the asset to the seller, and leaves every balance,
/// every asset holder, every other listing and every market record exactly
/// as they were before the deposit, with no residual listing record.
pub proof fn lemma_create_then_close_round_trip(
    s0: Marketplace,
    s1: Marketplace,
    s2: Marketplace,
    caller: u64,
    market_id: u64,
    asset_id: u64,
    ask: u64,
    r2: Result<(), FortuneError>,
)
    requires
        create_listing_result(s0, s1, caller, market_id, asset_id, ask, Ok(())),
        close_listing_result(s1, s2, caller, market_id, asset_id, r2),
    ensures
        r2 == Ok::<(), FortuneError>(()),
        !s2.has_listing(market_id, asset_id, caller),
        s0.holder_of(asset_id) == Some(AccountId::User(caller)),
        forall|a2: u64| #[trigger] s2.holder_of(a2) == s0.holder_of(a2),
        forall|x: AccountId| #[trigger] s2.balance_of(x) == s0.balance_of(x),
        s2.total_supply() == s0.total_supply(),
        forall|m2: u64, a2: u64, s3: u64|
            !(m2 == market_id && a2 == asset_id && s3 == caller) ==> #[trigger] s2.has_listing(
                m2,
                a2,
                s3,
            ) == s0.has_listing(m2, a2, s3),
        forall|m2: u64, a2: u64, s3: u64|
            !(m2 == market_id && a2 == asset_id && s3 == caller) && s0.has_listing(m2, a2, s3)
                ==> #[trigger] s2.listing_at(m2, a2, s3) == s0.listing_at(m2, a2, s3),
        s2.market_count() == s0.market_count(),
        forall|m2: u64| s0.has_market(m2) ==> #[trigger] s2.market_at(m2) == s0.market_at(m2),
{
    assert(!s1.listing_at(market_id, asset_id, caller).locked);
    assert forall|a2: u64| #[trigger] s2.holder_of(a2) == s0.holder_of(a2) by {
        if a2 != asset_id {
            assert(s1.holder_of(a2) == s0.holder_of(a2));
            assert(s2.holder_of(a2) == s1.holder_of(a2));
        }
    }
    assert forall|x: AccountId| #[trigger] s2.balance_of(x) == s0.balance_of(x) by {
        assert(s1.balance_of(x) == s0.balance_of(x));
        assert(s2.balance_of(x) == s1.balance_of(x));
    }
    assert forall|m2: u64, a2: u64, s3: u64|
        !(m2 == market_id && a2 == asset_id && s3 == caller) implies #[trigger] s2.has_listing(
        m2,
        a2,
        s3,
    ) == s0.has_listing(m2, a2, s3) by {
        assert(s1.has_listing(m2, a2, s3) == s0.has_listing(m2, a2, s3));
        assert(s2.has_listing(m2, a2, s3) == s1.has_listing(m2, a2, s3));
    }
    assert forall|m2: u64, a2: u64, s3: u64|
        !(m2 == market_id && a2 == asset_id && s3 == caller) && s0.has_listing(m2, a2, s3)
        implies #[trigger] s2.listing_at(m2, a2, s3) == s0.listing_at(m2, a2, s3) by {
        assert(s1.has_listing(m2, a2, s3) == s0.has_listing(m2, a2, s3));
        assert(s1.listing_at(m2, a2, s3) == s0.listing_at(m2, a2, s3));
        assert(s2.listing_at(m2, a2, s3) == s1.listing_at(m2, a2, s3));
    }
    assert forall|m2: u64| s0.has_market(m2) implies #[trigger] s2.market_at(m2) == s0.market_at(
        m2,
    ) by {
        assert(s1.has_market(m2) == s0.has_market(m2));
        assert(s1.market_at(m2) == s0.market_at(m2));
        assert(s2.market_at(m2) == s1.market_at(m2));
    }
}

} // verus!
