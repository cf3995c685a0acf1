//! The two persisted record kinds: markets and listings.

use vstd::prelude::*;

use crate::ids::AccountId;

verus! {

/// A market groups listings under one fee rate and one fee-collection
/// vault. `authority` and `fee_vault` are set at creation and never change;
/// no operation changes `fee_rate` after creation either.
#[derive(Clone, Copy, Debug, PartialEq, Eq, Structural)]
pub struct Market {
    /// The caller permitted to withdraw accumulated fees.
    pub authority: u64,
    /// The custody account accumulating this market's fees.
    pub fee_vault: AccountId,
    /// Numerator over [`crate::fees::FEE_SCALAR`] of the fraction of each
    /// sale taken as the market's fee.
    pub fee_rate: u64,
}

/// A listing is one seller's offer of one unique asset at a stated price.
/// A listing is keyed by `(market, asset_id, seller)`; at most one listing
/// exists per key. `market`, `seller` and `asset_id` never change; `ask` is
/// mutable only by `seller`.
#[derive(Clone, Copy, Debug, PartialEq, Eq, Structural)]
pub struct Listing {
    /// The id of the owning market.
    pub market: u64,
    /// The key of the depositing seller.
    pub seller: u64,
    /// The id of the unique asset under custody.
    pub asset_id: u64,
    /// The price, in base currency units, a buyer pays the seller.
    pub ask: u64,
    /// False while the asset is available for purchase; true once a sale
    /// has completed.
    pub locked: bool,
}

} // verus!
