//! The failure kinds an operation surfaces to its caller.

use vstd::prelude::*;

verus! {

/// Every operation either fully commits its described effect or returns one
/// of these kinds with no effect at all.
#[derive(Clone, Copy, Debug, PartialEq, Eq, Structural)]
pub enum FortuneError {
    /// A bid fell below a required minimum. Declared for callers; no
    /// operation currently enforces a minimum bid.
    BidTooLow,
    /// The caller is not the authority the operation demands: only the
    /// seller may re-price a listing, and only the market authority may
    /// withdraw fees.
    InvalidAskAuth,
    /// The listing's sale has already completed; it can be neither bought
    /// again nor closed.
    LockedListing,
    /// A zero ask price was rejected. Declared for callers; no operation
    /// currently enforces a non-zero ask.
    ZeroAsk,
    /// A currency transfer could not be made: the paying account's balance
    /// is below the amount owed.
    InsufficientFunds,
    /// An asset transfer could not be made: the source account does not
    /// hold the asset.
    MissingAsset,
}

} // verus!
