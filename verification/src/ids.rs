//! Account identities and derived custody addresses.
//!
//! Callers are identified by a key they hold. Custody accounts — the fee
//! vault of a market and the asset vault shared by all listings of one
//! asset — are identified structurally by the object they belong to, so any
//! caller can recompute a custody address, two distinct owners can never
//! share one, and no custody address can collide with a caller-held account.
//! Only the settlement operations in this crate move value out of a custody
//! account; no caller-held key can.

use vstd::prelude::*;

verus! {

/// The address of a currency or asset account in the settlement state.
#[derive(Clone, Copy, Debug, PartialEq, Eq, Structural)]
pub enum AccountId {
    /// An account held by the external caller with the given key.
    User(u64),
    /// The fee-collection vault of the market with the given id.
    FeeVault(u64),
    /// The custody vault holding the deposited unit of the asset with the
    /// given id.
    AssetVault(u64),
}

/// Derived custody addresses never collide: each custody address determines
/// the kind of account and the object it belongs to, and none equals a
/// caller-held account.
pub proof fn lemma_derived_addresses_distinct(a: u64, b: u64)
    ensures
        AccountId::FeeVault(a) != AccountId::User(b),
        AccountId::AssetVault(a) != AccountId::User(b),
        AccountId::FeeVault(a) != AccountId::AssetVault(b),
        (AccountId::FeeVault(a) == AccountId::FeeVault(b)) == (a == b),
        (AccountId::AssetVault(a) == AccountId::AssetVault(b)) == (a == b),
        (AccountId::User(a) == AccountId::User(b)) == (a == b),
{
}

} // verus!
