//! A fixed-price marketplace for unique assets.
//!
//! A seller deposits a unique asset into a program-controlled vault and
//! publishes an ask price; any buyer may atomically pay the ask plus a
//! per-mille market fee to receive the asset. The settlement state — market
//! and listing records, currency balances, and asset custody — is modelled
//! explicitly, and every operation carries a contract stating exactly which
//! balances and records it changes and on which inputs it fails.

pub mod assets;
pub mod cash;
pub mod errors;
pub mod fees;
pub mod ids;
pub mod laws;
pub mod market;
pub mod records;

pub use errors::FortuneError;
pub use fees::FEE_SCALAR;
pub use ids::AccountId;
pub use market::Marketplace;
pub use records::Listing;
pub use records::Market;
