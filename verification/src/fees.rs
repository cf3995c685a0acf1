//! The fee calculator: the fraction of each sale owed to the market.

use vstd::prelude::*;

verus! {

/// Denominator of a market's fee rate: a rate of `r` takes `r` parts per
/// `FEE_SCALAR` of the sale price as the market's fee.
pub const FEE_SCALAR: u64 = 1000;

/// The fee owed on a sale at price `ask` under the per-mille rate
/// `fee_rate`: `floor(ask * fee_rate / FEE_SCALAR)`.
pub open spec fn fee_of(ask: u64, fee_rate: u64) -> int {
    (ask * fee_rate) / (FEE_SCALAR as int)
}

/// Computes the fee owed on a sale. The product must fit the currency
/// type; the buy operation demands the same bound.
pub fn fee_amount(ask: u64, fee_rate: u64) -> (fee: u64)
    requires
        ask * fee_rate <= u64::MAX,
    ensures
        fee == fee_of(ask, fee_rate),
{
    (ask * fee_rate) / FEE_SCALAR
}

} // verus!
