//! The settlement engine: the marketplace state and its operations.
//!
//! A [`Marketplace`] models the persisted settlement state as one value:
//! the market records, the listing records, the currency ledger, and the
//! custody book of unique assets. Each operation is an indivisible unit:
//! it validates its preconditions first and mutates only after every check
//! has passed, so an error always means nothing changed. Every custody
//! account (fee vault, asset vault) is moved only by these operations,
//! never by a caller-held key.

use vstd::prelude::*;

use crate::assets::AssetBook;
use crate::cash::Ledger;
use crate::errors::FortuneError;
use crate::fees::fee_amount;
use crate::fees::fee_of;
use crate::ids::AccountId;
use crate::records::Listing;
use crate::records::Market;

verus! {

/// Whether listing `l` is stored under the key `(m, a, s)`.
pub open spec fn listing_keyed(l: Listing, m: u64, a: u64, s: u64) -> bool {
    l.market == m && l.asset_id == a && l.seller == s
}

/// The first listing stored under key `(m, a, s)`, if any.
pub open spec fn find_listing(ls: Seq<Listing>, m: u64, a: u64, s: u64) -> Option<Listing>
    decreases ls.len(),
{
    if ls.len() == 0 {
        None
    } else if listing_keyed(ls.first(), m, a, s) {
        Some(ls.first())
    } else {
        find_listing(ls.drop_first(), m, a, s)
    }
}

/// The first entry under a key, when one exists at index `i` with none
/// earlier, is what lookup returns.
proof fn lemma_listing_at(ls: Seq<Listing>, i: int, m: u64, a: u64, s: u64)
    requires
        0 <= i < ls.len(),
        listing_keyed(ls[i], m, a, s),
        forall|j: int| 0 <= j < i ==> !listing_keyed(#[trigger] ls[j], m, a, s),
    ensures
        find_listing(ls, m, a, s) == Some(ls[i]),
    decreases ls.len(),
{
    if i > 0 {
        lemma_listing_at(ls.drop_first(), i - 1, m, a, s);
    }
}

/// A key under which no listing is stored looks up to nothing.
proof fn lemma_listing_absent(ls: Seq<Listing>, m: u64, a: u64, s: u64)
    requires
        forall|j: int| 0 <= j < ls.len() ==> !listing_keyed(#[trigger] ls[j], m, a, s),
    ensures
        find_listing(ls, m, a, s) == None::<Listing>,
    decreases ls.len(),
{
    if ls.len() > 0 {
        lemma_listing_absent(ls.drop_first(), m, a, s);
    }
}

/// A key that looks up to nothing has no entry.
proof fn lemma_listing_absent_converse(ls: Seq<Listing>, m: u64, a: u64, s: u64)
    requires
        find_listing(ls, m, a, s) == None::<Listing>,
    ensures
        forall|j: int| 0 <= j < ls.len() ==> !listing_keyed(#[trigger] ls[j], m, a, s),
    decreases ls.len(),
{
    if ls.len() > 0 {
        lemma_listing_absent_converse(ls.drop_first(), m, a, s);
        assert forall|j: int| 0 <= j < ls.len() implies !listing_keyed(#[trigger] ls[j], m, a, s) by {
            if j > 0 {
                assert(ls.drop_first()[j - 1] == ls[j]);
                assert(!listing_keyed(ls.drop_first()[j - 1], m, a, s));
            }
        }
    }
}

/// Looking up any key after overwriting the first entry under `(m, a, s)`
/// with another listing under the same key: that key sees the new listing,
/// every other key is unaffected.
proof fn lemma_listing_update(ls: Seq<Listing>, i: int, m: u64, a: u64, s: u64, l2: Listing)
    requires
        0 <= i < ls.len(),
        listing_keyed(ls[i], m, a, s),
        forall|j: int| 0 <= j < i ==> !listing_keyed(#[trigger] ls[j], m, a, s),
        listing_keyed(l2, m, a, s),
    ensures
        find_listing(ls.update(i, l2), m, a, s) == Some(l2),
        forall|m2: u64, a2: u64, s2: u64|
            !(m2 == m && a2 == a && s2 == s) ==> #[trigger] find_listing(
                ls.update(i, l2),
                m2,
                a2,
                s2,
            ) == find_listing(ls, m2, a2, s2),
    decreases ls.len(),
{
    let t = ls.update(i, l2);
    if i == 0 {
        assert(t.drop_first() =~= ls.drop_first());
        assert forall|m2: u64, a2: u64, s2: u64| !(m2 == m && a2 == a && s2 == s) implies #[trigger] find_listing(
            t,
            m2,
            a2,
            s2,
        ) == find_listing(ls, m2, a2, s2) by {
            if listing_keyed(ls.first(), m2, a2, s2) {
                assert(false);
            } else {
                assert(find_listing(t, m2, a2, s2) == find_listing(t.drop_first(), m2, a2, s2));
                assert(find_listing(ls, m2, a2, s2) == find_listing(ls.drop_first(), m2, a2, s2));
            }
        }
    } else {
        assert(t.first() == ls.first());
        assert(t.drop_first() =~= ls.drop_first().update(i - 1, l2));
        lemma_listing_update(ls.drop_first(), i - 1, m, a, s, l2);
        assert forall|m2: u64, a2: u64, s2: u64| !(m2 == m && a2 == a && s2 == s) implies #[trigger] find_listing(
            t,
            m2,
            a2,
            s2,
        ) == find_listing(ls, m2, a2, s2) by {
            if !listing_keyed(ls.first(), m2, a2, s2) {
                assert(find_listing(t, m2, a2, s2) == find_listing(t.drop_first(), m2, a2, s2));
                assert(find_listing(ls, m2, a2, s2) == find_listing(ls.drop_first(), m2, a2, s2));
            }
        }
    }
}

/// Looking up any key after appending a listing whose key has no entry:
/// its key sees it, every other key is unaffected.
proof fn lemma_listing_push(ls: Seq<Listing>, l2: Listing)
    requires
        forall|j: int|
            0 <= j < ls.len() ==> !listing_keyed(#[trigger] ls[j], l2.market, l2.asset_id, l2.seller),
    ensures
        find_listing(ls.push(l2), l2.market, l2.asset_id, l2.seller) == Some(l2),
        forall|m2: u64, a2: u64, s2: u64|
            !(m2 == l2.market && a2 == l2.asset_id && s2 == l2.seller) ==> #[trigger] find_listing(
                ls.push(l2),
                m2,
                a2,
                s2,
            ) == find_listing(ls, m2, a2, s2),
    decreases ls.len(),
{
    let t = ls.push(l2);
    if ls.len() == 0 {
        assert(t.drop_first() =~= ls);
        assert forall|m2: u64, a2: u64, s2: u64|
            !(m2 == l2.market && a2 == l2.asset_id && s2 == l2.seller) implies #[trigger] find_listing(
            t,
            m2,
            a2,
            s2,
        ) == find_listing(ls, m2, a2, s2) by {
            if !listing_keyed(l2, m2, a2, s2) {
                assert(find_listing(t, m2, a2, s2) == find_listing(t.drop_first(), m2, a2, s2));
            }
        }
    } else {
        assert(t.first() == ls.first());
        assert(t.drop_first() =~= ls.drop_first().push(l2));
        lemma_listing_push(ls.drop_first(), l2);
        assert forall|m2: u64, a2: u64, s2: u64|
            !(m2 == l2.market && a2 == l2.asset_id && s2 == l2.seller) implies #[trigger] find_listing(
            t,
            m2,
            a2,
            s2,
        ) == find_listing(ls, m2, a2, s2) by {
            if !listing_keyed(ls.first(), m2, a2, s2) {
                assert(find_listing(t, m2, a2, s2) == find_listing(t.drop_first(), m2, a2, s2));
                assert(find_listing(ls, m2, a2, s2) == find_listing(ls.drop_first(), m2, a2, s2));
            }
        }
    }
}

/// Looking up any key after removing the only entry under `(m, a, s)`:
/// that key sees nothing, every other key is unaffected.
proof fn lemma_listing_remove(ls: Seq<Listing>, i: int, m: u64, a: u64, s: u64)
    requires
        0 <= i < ls.len(),
        listing_keyed(ls[i], m, a, s),
        forall|j: int| 0 <= j < ls.len() && j != i ==> !listing_keyed(#[trigger] ls[j], m, a, s),
    ensures
        find_listing(ls.remove(i), m, a, s) == None::<Listing>,
        forall|m2: u64, a2: u64, s2: u64|
            !(m2 == m && a2 == a && s2 == s) ==> #[trigger] find_listing(ls.remove(i), m2, a2, s2)
                == find_listing(ls, m2, a2, s2),
    decreases ls.len(),
{
    let t = ls.remove(i);
    if i == 0 {
        assert(t =~= ls.drop_first());
        lemma_listing_absent(t, m, a, s);
        assert forall|m2: u64, a2: u64, s2: u64| !(m2 == m && a2 == a && s2 == s) implies #[trigger] find_listing(
            t,
            m2,
            a2,
            s2,
        ) == find_listing(ls, m2, a2, s2) by {
            if listing_keyed(ls.first(), m2, a2, s2) {
                assert(false);
            } else {
                assert(find_listing(ls, m2, a2, s2) == find_listing(ls.drop_first(), m2, a2, s2));
            }
        }
    } else {
        assert(t.first() == ls.first());
        assert(t.drop_first() =~= ls.drop_first().remove(i - 1));
        lemma_listing_remove(ls.drop_first(), i - 1, m, a, s);
        assert(!listing_keyed(ls.first(), m, a, s));
        assert(find_listing(t, m, a, s) == find_listing(t.drop_first(), m, a, s));
        assert forall|m2: u64, a2: u64, s2: u64| !(m2 == m && a2 == a && s2 == s) implies #[trigger] find_listing(
            t,
            m2,
            a2,
            s2,
        ) == find_listing(ls, m2, a2, s2) by {
            if !listing_keyed(ls.first(), m2, a2, s2) {
                assert(find_listing(t, m2, a2, s2) == find_listing(t.drop_first(), m2, a2, s2));
                assert(find_listing(ls, m2, a2, s2) == find_listing(ls.drop_first(), m2, a2, s2));
            }
        }
    }
}

/// The whole settlement state.
pub struct Marketplace {
    markets: Vec<Market>,
    listings: Vec<Listing>,
    cash: Ledger,
    assets: AssetBook,
}

impl Marketplace {
    /// How many markets have been created. Market ids are allocated in
    /// creation order and markets are never destroyed.
    pub closed spec fn market_count(self) -> int {
        self.markets@.len() as int
    }

    /// Whether a market with id `m` exists.
    pub closed spec fn has_market(self, m: u64) -> bool {
        (m as int) < self.markets@.len()
    }

    /// The market record with id `m`.
    pub closed spec fn market_at(self, m: u64) -> Market {
        self.markets@[m as int]
    }

    /// Whether a listing is stored under key `(m, a, s)`.
    pub closed spec fn has_listing(self, m: u64, a: u64, s: u64) -> bool {
        find_listing(self.listings@, m, a, s).is_some()
    }

    /// The listing stored under key `(m, a, s)`.
    pub closed spec fn listing_at(self, m: u64, a: u64, s: u64) -> Listing {
        find_listing(self.listings@, m, a, s).unwrap()
    }

    /// The currency balance of account `x`.
    pub closed spec fn balance_of(self, x: AccountId) -> u64 {
        self.cash.balance_of(x)
    }

    /// The sum of all currency balances.
    pub closed spec fn total_supply(self) -> int {
        self.cash.total_supply()
    }

    /// The account holding the single unit of asset `a`, or nothing when no
    /// such asset exists.
    pub closed spec fn holder_of(self, a: u64) -> Option<AccountId> {
        self.assets.holder_of(a)
    }

    /// The state invariant every operation preserves:
    /// - the ledger and the custody book are themselves well-formed;
    /// - at most one listing exists per `(market, asset_id, seller)` key;
    /// - every listing's market exists;
    /// - every market's fee vault is the one derived from its id;
    /// - the asset of every unlocked listing sits in that asset's vault;
    /// - at most one unlocked listing exists per asset;
    /// - the fee vault of every not-yet-created market is empty.
    pub closed spec fn wf(self) -> bool {
        &&& self.cash.wf()
        &&& self.assets.wf()
        &&& forall|i: int, j: int|
            0 <= i < j < self.listings@.len() ==> !listing_keyed(
                #[trigger] self.listings@[i],
                (#[trigger] self.listings@[j]).market,
                self.listings@[j].asset_id,
                self.listings@[j].seller,
            )
        &&& forall|i: int|
            0 <= i < self.listings@.len() ==> (#[trigger] self.listings@[i]).market
                < self.markets@.len()
        &&& forall|k: int|
            0 <= k < self.markets@.len() ==> (#[trigger] self.markets@[k]).fee_vault
                == AccountId::FeeVault(k as u64)
        &&& forall|i: int|
            0 <= i < self.listings@.len() && !(#[trigger] self.listings@[i]).locked
                ==> self.assets.holder_of(self.listings@[i].asset_id) == Some(
                AccountId::AssetVault(self.listings@[i].asset_id),
            )
        &&& forall|i: int, j: int|
            0 <= i < self.listings@.len() && 0 <= j < self.listings@.len() && i != j && !(
            #[trigger] self.listings@[i]).locked && !(#[trigger] self.listings@[j]).locked
                ==> self.listings@[i].asset_id != self.listings@[j].asset_id
        &&& forall|m: u64|
            (m as int) >= self.markets@.len() ==> #[trigger] self.cash.balance_of(
                AccountId::FeeVault(m),
            ) == 0
    }

    /// An empty marketplace: no markets, no listings, no balances, no
    /// assets.
    pub fn new() -> (r: Marketplace)
        ensures
            r.wf(),
            r.market_count() == 0,
            r.total_supply() == 0,
            forall|x: AccountId| r.balance_of(x) == 0,
            forall|a: u64| r.holder_of(a) == None::<AccountId>,
            forall|m: u64, a: u64, s: u64| !r.has_listing(m, a, s),
    {
        let r = Marketplace {
            markets: Vec::new(),
            listings: Vec::new(),
            cash: Ledger::new(),
            assets: AssetBook::new(),
        };
        proof {
            assert forall|m: u64, a: u64, s: u64| !r.has_listing(m, a, s) by {
                assert(find_listing(r.listings@, m, a, s) == None::<Listing>);
            }
        }
        r
    }

    /// The index of the first listing under key `(m, a, s)`, if any.
    fn listing_index(listings: &Vec<Listing>, m: u64, a: u64, s: u64) -> (r: Option<usize>)
        ensures
            match r {
                Some(i) => i < listings@.len() && listing_keyed(listings@[i as int], m, a, s)
                    && forall|j: int|
                    0 <= j < i ==> !listing_keyed(#[trigger] listings@[j], m, a, s),
                None => forall|j: int|
                    0 <= j < listings@.len() ==> !listing_keyed(#[trigger] listings@[j], m, a, s),
            },
    {
        let n: usize = listings.len();
        let mut i: usize = 0;
        while i < n
            invariant
                n == listings@.len(),
                i <= n,
                forall|j: int| 0 <= j < i ==> !listing_keyed(#[trigger] listings@[j], m, a, s),
            decreases n - i,
        {
            let l = listings[i];
            if l.market == m && l.asset_id == a && l.seller == s {
                return Some(i);
            }
            i = i + 1;
        }
        None
    }

    /// Reads the currency balance of any account, custody vaults included.
    pub fn balance(&self, x: AccountId) -> (r: u64)
        ensures
            r == self.balance_of(x),
    {
        self.cash.balance(x)
    }

    /// Reads the holder of asset `a`.
    pub fn holder(&self, a: u64) -> (r: Option<AccountId>)
        ensures
            r == self.holder_of(a),
    {
        self.assets.holder(a)
    }

    /// Reads the listing stored under key `(m, a, s)`, if any.
    pub fn listing(&self, m: u64, a: u64, s: u64) -> (r: Option<Listing>)
        ensures
            match r {
                Some(l) => self.has_listing(m, a, s) && l == self.listing_at(m, a, s),
                None => !self.has_listing(m, a, s),
            },
    {
        match Self::listing_index(&self.listings, m, a, s) {
            Some(i) => {
                proof {
                    lemma_listing_at(self.listings@, i as int, m, a, s);
                }
                Some(self.listings[i])
            },
            None => {
                proof {
                    lemma_listing_absent(self.listings@, m, a, s);
                }
                None
            },
        }
    }

    /// Reads the market record with id `m`, if any.
    pub fn market(&self, m: u64) -> (r: Option<Market>)
        ensures
            match r {
                Some(mk) => self.has_market(m) && mk == self.market_at(m),
                None => !self.has_market(m),
            },
    {
        if m < self.markets.len() as u64 {
            Some(self.markets[m as usize])
        } else {
            None
        }
    }

    /// Credits caller `owner`'s account with freshly issued currency: the
    /// environment's way of giving a caller funds. Succeeds exactly when
    /// the grown supply still fits the currency type; on failure nothing
    /// changes.
    pub fn fund(&mut self, owner: u64, amount: u64) -> (ok: bool)
        requires
            old(self).wf(),
        ensures
            final(self).wf(),
            ok == (old(self).total_supply() + amount <= u64::MAX),
            !ok ==> *final(self) == *old(self),
            ok ==> final(self).balance_of(AccountId::User(owner)) == old(self).balance_of(
                AccountId::User(owner),
            ) + amount,
            ok ==> forall|x: AccountId|
                x != AccountId::User(owner) ==> final(self).balance_of(x) == old(self).balance_of(
                    x,
                ),
            ok ==> final(self).total_supply() == old(self).total_supply() + amount,
            listings_unchanged(*old(self), *final(self)),
            holdings_unchanged(*old(self), *final(self)),
            markets_unchanged(*old(self), *final(self)),
    {
        self.cash.deposit(AccountId::User(owner), amount)
    }

    /// Brings a new unique asset into existence in caller `owner`'s hands:
    /// the environment's way of issuing an asset. Succeeds exactly when no
    /// asset with this id exists yet; on failure nothing changes.
    pub fn mint_asset(&mut self, a: u64, owner: u64) -> (ok: bool)
        requires
            old(self).wf(),
        ensures
            final(self).wf(),
            ok == (old(self).holder_of(a) == None::<AccountId>),
            !ok ==> *final(self) == *old(self),
            ok ==> final(self).holder_of(a) == Some(AccountId::User(owner)),
            ok ==> forall|x: u64| x != a ==> final(self).holder_of(x) == old(self).holder_of(x),
            listings_unchanged(*old(self), *final(self)),
            markets_unchanged(*old(self), *final(self)),
            balances_unchanged(*old(self), *final(self)),
    {
        self.assets.mint(a, AccountId::User(owner))
    }

    /// Creates a new market owned by `caller`, with an empty fee vault
    /// derived from the new market's id. Permissionless: any caller may
    /// create a market at any fee rate.
    pub fn create_market(&mut self, caller: u64, fee_rate: u64) -> (id: u64)
        requires
            old(self).wf(),
            old(self).market_count() < u64::MAX,
        ensures
            final(self).wf(),
            create_market_result(*old(self), *final(self), caller, fee_rate, id),
    {
        let id: u64 = self.markets.len() as u64;
        self.markets.push(Market { authority: caller, fee_vault: AccountId::FeeVault(id), fee_rate });
        id
    }

    /// Deposits the caller's asset into the derived asset vault and stores
    /// a new unlocked listing at the caller's ask. The key must be free:
    /// at most one listing ever exists per `(market, asset_id, seller)`.
    /// Fails, changing nothing, exactly when the caller does not hold the
    /// asset.
    pub fn create_listing(&mut self, caller: u64, market_id: u64, asset_id: u64, ask: u64) -> (r:
        Result<(), FortuneError>)
        requires
            old(self).wf(),
            old(self).has_market(market_id),
            !old(self).has_listing(market_id, asset_id, caller),
        ensures
            final(self).wf(),
            create_listing_result(*old(self), *final(self), caller, market_id, asset_id, ask, r),
    {
        let src = AccountId::User(caller);
        let vault = AccountId::AssetVault(asset_id);
        let held = match self.assets.holder(asset_id) {
            Some(h) => h == src,
            None => false,
        };
        if !held {
            return Err(FortuneError::MissingAsset);
        }
        let moved = self.assets.move_unit(src, vault, asset_id);
        proof {
            assert(moved);
            lemma_listing_absent_converse(self.listings@, market_id, asset_id, caller);
            lemma_listing_push(
                self.listings@,
                Listing {
                    market: market_id,
                    seller: caller,
                    asset_id: asset_id,
                    ask: ask,
                    locked: false,
                },
            );
        }
        self.listings.push(
            Listing {
                market: market_id,
                seller: caller,
                asset_id: asset_id,
                ask: ask,
                locked: false,
            },
        );
        Ok(())
    }

    /// Sells the listing under `(market_id, asset_id, seller)` to `buyer`,
    /// as one unit: the asset leaves its vault for the buyer, the seller
    /// receives the ask, the fee vault receives the fee, and the listing
    /// locks. The fee product must fit the currency type; the fee
    /// calculator demands the same bound.
    pub fn buy(&mut self, buyer: u64, market_id: u64, asset_id: u64, seller: u64) -> (r: Result<
        (),
        FortuneError,
    >)
        requires
            old(self).wf(),
            old(self).has_market(market_id),
            old(self).has_listing(market_id, asset_id, seller),
            old(self).listing_at(market_id, asset_id, seller).ask * old(self).market_at(
                market_id,
            ).fee_rate <= u64::MAX,
        ensures
            final(self).wf(),
            buy_result(*old(self), *final(self), buyer, market_id, asset_id, seller, r),
    {
        let idx = Self::listing_index(&self.listings, market_id, asset_id, seller);
        proof {
            if idx is None {
                lemma_listing_absent(self.listings@, market_id, asset_id, seller);
            }
            assert(idx is Some);
        }
        let i: usize = idx.unwrap();
        proof {
            lemma_listing_at(self.listings@, i as int, market_id, asset_id, seller);
        }
        let l = self.listings[i];
        if l.locked {
            return Err(FortuneError::LockedListing);
        }
        let n: usize = self.markets.len();
        proof {
            assert((market_id as int) < n as int);
        }
        let mk = self.markets[market_id as usize];
        let fee: u64 = fee_amount(l.ask, mk.fee_rate);
        let buyer_acct = AccountId::User(buyer);
        let seller_acct = AccountId::User(seller);
        let fee_vault = AccountId::FeeVault(market_id);
        let bal: u64 = self.cash.balance(buyer_acct);
        if buyer == seller {
            if bal < l.ask || bal < fee {
                return Err(FortuneError::InsufficientFunds);
            }
        } else {
            if bal < l.ask {
                return Err(FortuneError::InsufficientFunds);
            }
            if bal - l.ask < fee {
                return Err(FortuneError::InsufficientFunds);
            }
        }
        let moved = self.assets.move_unit(AccountId::AssetVault(asset_id), buyer_acct, asset_id);
        proof {
            assert(moved);
        }
        let paid_ask = self.cash.transfer(buyer_acct, seller_acct, l.ask);
        proof {
            assert(paid_ask);
        }
        let paid_fee = self.cash.transfer(buyer_acct, fee_vault, fee);
        proof {
            assert(paid_fee);
            lemma_listing_update(
                self.listings@,
                i as int,
                market_id,
                asset_id,
                seller,
                Listing {
                    market: market_id,
                    seller: seller,
                    asset_id: asset_id,
                    ask: l.ask,
                    locked: true,
                },
            );
        }
        self.listings.set(
            i,
            Listing {
                market: market_id,
                seller: seller,
                asset_id: asset_id,
                ask: l.ask,
                locked: true,
            },
        );
        Ok(())
    }

    /// Re-prices the listing under `(market_id, asset_id, seller)` to
    /// `amount`. Fails, changing nothing, exactly when the caller is not
    /// the seller.
    pub fn ask(&mut self, caller: u64, market_id: u64, asset_id: u64, seller: u64, amount: u64) -> (r:
        Result<(), FortuneError>)
        requires
            old(self).wf(),
            old(self).has_listing(market_id, asset_id, seller),
        ensures
            final(self).wf(),
            ask_result(*old(self), *final(self), caller, market_id, asset_id, seller, amount, r),
    {
        if caller != seller {
            return Err(FortuneError::InvalidAskAuth);
        }
        let idx = Self::listing_index(&self.listings, market_id, asset_id, seller);
        proof {
            if idx is None {
                lemma_listing_absent(self.listings@, market_id, asset_id, seller);
            }
            assert(idx is Some);
        }
        let i: usize = idx.unwrap();
        proof {
            lemma_listing_at(self.listings@, i as int, market_id, asset_id, seller);
        }
        let l = self.listings[i];
        proof {
            lemma_listing_update(
                self.listings@,
                i as int,
                market_id,
                asset_id,
                seller,
                Listing {
                    market: market_id,
                    seller: seller,
                    asset_id: asset_id,
                    ask: amount,
                    locked: l.locked,
                },
            );
        }
        self.listings.set(
            i,
            Listing {
                market: market_id,
                seller: seller,
                asset_id: asset_id,
                ask: amount,
                locked: l.locked,
            },
        );
        Ok(())
    }

    /// Withdraws an unsold listing: returns the asset from its vault to
    /// the caller — who, holding the listing's key, is its seller — and
    /// removes the listing record. Fails, changing nothing, exactly when
    /// the listing is locked.
    pub fn close_listing(&mut self, caller: u64, market_id: u64, asset_id: u64) -> (r: Result<
        (),
        FortuneError,
    >)
        requires
            old(self).wf(),
            old(self).has_listing(market_id, asset_id, caller),
        ensures
            final(self).wf(),
            close_listing_result(*old(self), *final(self), caller, market_id, asset_id, r),
    {
        let idx = Self::listing_index(&self.listings, market_id, asset_id, caller);
        proof {
            if idx is None {
                lemma_listing_absent(self.listings@, market_id, asset_id, caller);
            }
            assert(idx is Some);
        }
        let i: usize = idx.unwrap();
        proof {
            lemma_listing_at(self.listings@, i as int, market_id, asset_id, caller);
        }
        let l = self.listings[i];
        if l.locked {
            return Err(FortuneError::LockedListing);
        }
        let moved = self.assets.move_unit(
            AccountId::AssetVault(asset_id),
            AccountId::User(caller),
            asset_id,
        );
        proof {
            assert(moved);
            lemma_listing_remove(self.listings@, i as int, market_id, asset_id, caller);
        }
        self.listings.remove(i);
        Ok(())
    }

    /// Moves `amount` of accumulated fees from the market's fee vault to
    /// the destination caller's account. Fails, changing nothing, exactly
    /// when the caller is not the market's authority or the vault balance
    /// is below the amount.
    pub fn withdraw_fees(&mut self, caller: u64, market_id: u64, amount: u64, destination: u64) -> (r:
        Result<(), FortuneError>)
        requires
            old(self).wf(),
            old(self).has_market(market_id),
        ensures
            final(self).wf(),
            withdraw_fees_result(
                *old(self),
                *final(self),
                caller,
                market_id,
                amount,
                destination,
                r,
            ),
    {
        let n: usize = self.markets.len();
        proof {
            assert((market_id as int) < n as int);
        }
        let mk = self.markets[market_id as usize];
        if caller != mk.authority {
            return Err(FortuneError::InvalidAskAuth);
        }
        let ok = self.cash.transfer(
            AccountId::FeeVault(market_id),
            AccountId::User(destination),
            amount,
        );
        if !ok {
            return Err(FortuneError::InsufficientFunds);
        }
        Ok(())
    }
}

/// A market exists exactly when its id is below the number of markets
/// created so far: ids are allocated densely, in creation order, and
/// markets are never destroyed.
pub proof fn lemma_has_market_iff_below_count(m: Marketplace, id: u64)
    ensures
        m.has_market(id) == ((id as int) < m.market_count()),
{
}

/// Listings are exactly the same in `post` as in `pre`.
pub open spec fn listings_unchanged(pre: Marketplace, post: Marketplace) -> bool {
    &&& forall|m2: u64, a2: u64, s2: u64|
        #[trigger] post.has_listing(m2, a2, s2) == pre.has_listing(m2, a2, s2)
    &&& forall|m2: u64, a2: u64, s2: u64|
        pre.has_listing(m2, a2, s2) ==> #[trigger] post.listing_at(m2, a2, s2) == pre.listing_at(
            m2,
            a2,
            s2,
        )
}

/// Listings under every key but `(m, a, s)` are the same in `post` as in
/// `pre`.
pub open spec fn listings_unchanged_except(
    pre: Marketplace,
    post: Marketplace,
    m: u64,
    a: u64,
    s: u64,
) -> bool {
    &&& forall|m2: u64, a2: u64, s2: u64|
        !(m2 == m && a2 == a && s2 == s) ==> #[trigger] post.has_listing(m2, a2, s2)
            == pre.has_listing(m2, a2, s2)
    &&& forall|m2: u64, a2: u64, s2: u64|
        !(m2 == m && a2 == a && s2 == s) && pre.has_listing(m2, a2, s2)
            ==> #[trigger] post.listing_at(m2, a2, s2) == pre.listing_at(m2, a2, s2)
}

/// Market records are exactly the same in `post` as in `pre`.
pub open spec fn markets_unchanged(pre: Marketplace, post: Marketplace) -> bool {
    &&& post.market_count() == pre.market_count()
    &&& forall|m2: u64| #[trigger] post.has_market(m2) == pre.has_market(m2)
    &&& forall|m2: u64|
        pre.has_market(m2) ==> #[trigger] post.market_at(m2) == pre.market_at(m2)
}

/// Every currency balance, and the supply, is the same in `post` as in
/// `pre`.
pub open spec fn balances_unchanged(pre: Marketplace, post: Marketplace) -> bool {
    &&& forall|x: AccountId| #[trigger] post.balance_of(x) == pre.balance_of(x)
    &&& post.total_supply() == pre.total_supply()
}

/// Every asset's holder is the same in `post` as in `pre`.
pub open spec fn holdings_unchanged(pre: Marketplace, post: Marketplace) -> bool {
    forall|a2: u64| #[trigger] post.holder_of(a2) == pre.holder_of(a2)
}

/// Every asset's holder but `a`'s is the same in `post` as in `pre`.
pub open spec fn holdings_unchanged_except(pre: Marketplace, post: Marketplace, a: u64) -> bool {
    forall|a2: u64| a2 != a ==> #[trigger] post.holder_of(a2) == pre.holder_of(a2)
}

/// What a market creation did: `id` is the next fresh id, the new record
/// carries the caller as authority and the derived fee vault, the new fee
/// vault is empty, and nothing else changed.
pub open spec fn create_market_result(
    pre: Marketplace,
    post: Marketplace,
    caller: u64,
    fee_rate: u64,
    id: u64,
) -> bool {
    &&& id as int == pre.market_count()
    &&& post.market_count() == pre.market_count() + 1
    &&& post.has_market(id)
    &&& post.market_at(id) == (Market {
        authority: caller,
        fee_vault: AccountId::FeeVault(id),
        fee_rate,
    })
    &&& forall|m2: u64| m2 != id ==> #[trigger] post.has_market(m2) == pre.has_market(m2)
    &&& forall|m2: u64|
        m2 != id && pre.has_market(m2) ==> #[trigger] post.market_at(m2) == pre.market_at(m2)
    &&& post.balance_of(AccountId::FeeVault(id)) == 0
    &&& balances_unchanged(pre, post)
    &&& listings_unchanged(pre, post)
    &&& holdings_unchanged(pre, post)
}

/// What a listing creation did: when the caller does not hold the asset,
/// the deposit fails and nothing changes; otherwise the new unlocked
/// listing is stored under `(market_id, asset_id, caller)` and the asset
/// has moved from the caller into the asset's vault — the vault holds the
/// unit and the caller's account no longer does. No balance changes.
pub open spec fn create_listing_result(
    pre: Marketplace,
    post: Marketplace,
    caller: u64,
    market_id: u64,
    asset_id: u64,
    ask: u64,
    r: Result<(), FortuneError>,
) -> bool {
    if pre.holder_of(asset_id) != Some(AccountId::User(caller)) {
        r == Err::<(), FortuneError>(FortuneError::MissingAsset) && post == pre
    } else {
        &&& r == Ok::<(), FortuneError>(())
        &&& post.has_listing(market_id, asset_id, caller)
        &&& post.listing_at(market_id, asset_id, caller) == (Listing {
            market: market_id,
            seller: caller,
            asset_id: asset_id,
            ask: ask,
            locked: false,
        })
        &&& listings_unchanged_except(pre, post, market_id, asset_id, caller)
        &&& post.holder_of(asset_id) == Some(AccountId::AssetVault(asset_id))
        &&& holdings_unchanged_except(pre, post, asset_id)
        &&& balances_unchanged(pre, post)
        &&& markets_unchanged(pre, post)
    }
}

/// Whether the buyer can pay both the ask and the fee, in that order. A
/// seller buying their own listing pays the ask to themself, so only the
/// fee leaves their account for good.
pub open spec fn buy_affordable(
    pre: Marketplace,
    buyer: u64,
    seller: u64,
    ask: u64,
    fee: int,
) -> bool {
    if buyer == seller {
        pre.balance_of(AccountId::User(buyer)) >= ask && pre.balance_of(AccountId::User(buyer))
            >= fee
    } else {
        pre.balance_of(AccountId::User(buyer)) >= ask + fee
    }
}

/// What a purchase did. A locked listing rejects the purchase untouched; a
/// buyer who cannot cover ask plus fee is rejected untouched. Otherwise,
/// in one unit: the asset moves from its vault to the buyer, the seller
/// receives exactly the ask, the market's fee vault receives exactly the
/// fee, the buyer pays exactly ask plus fee, and the listing stays in
/// storage, locked.
pub open spec fn buy_result(
    pre: Marketplace,
    post: Marketplace,
    buyer: u64,
    market_id: u64,
    asset_id: u64,
    seller: u64,
    r: Result<(), FortuneError>,
) -> bool {
    let l = pre.listing_at(market_id, asset_id, seller);
    let fee = fee_of(l.ask, pre.market_at(market_id).fee_rate);
    if l.locked {
        r == Err::<(), FortuneError>(FortuneError::LockedListing) && post == pre
    } else if !buy_affordable(pre, buyer, seller, l.ask, fee) {
        r == Err::<(), FortuneError>(FortuneError::InsufficientFunds) && post == pre
    } else {
        &&& r == Ok::<(), FortuneError>(())
        &&& post.holder_of(asset_id) == Some(AccountId::User(buyer))
        &&& holdings_unchanged_except(pre, post, asset_id)
        &&& post.has_listing(market_id, asset_id, seller)
        &&& post.listing_at(market_id, asset_id, seller) == (Listing {
            market: market_id,
            seller: seller,
            asset_id: asset_id,
            ask: l.ask,
            locked: true,
        })
        &&& listings_unchanged_except(pre, post, market_id, asset_id, seller)
        &&& (buyer == seller ==> post.balance_of(AccountId::User(buyer)) == pre.balance_of(
            AccountId::User(buyer),
        ) - fee)
        &&& (buyer != seller ==> post.balance_of(AccountId::User(buyer)) == pre.balance_of(
            AccountId::User(buyer),
        ) - l.ask - fee)
        &&& (buyer != seller ==> post.balance_of(AccountId::User(seller)) == pre.balance_of(
            AccountId::User(seller),
        ) + l.ask)
        &&& post.balance_of(AccountId::FeeVault(market_id)) == pre.balance_of(
            AccountId::FeeVault(market_id),
        ) + fee
        &&& forall|x: AccountId|
            x != AccountId::User(buyer) && x != AccountId::User(seller) && x
                != AccountId::FeeVault(market_id) ==> #[trigger] post.balance_of(x)
                == pre.balance_of(x)
        &&& post.total_supply() == pre.total_supply()
        &&& markets_unchanged(pre, post)
    }
}

/// What a re-pricing did: a caller other than the seller is rejected
/// untouched; the seller overwrites the ask and nothing else changes. The
/// lock state is not consulted: re-pricing a sold listing is possible but
/// inert, since its sale has already completed.
pub open spec fn ask_result(
    pre: Marketplace,
    post: Marketplace,
    caller: u64,
    market_id: u64,
    asset_id: u64,
    seller: u64,
    amount: u64,
    r: Result<(), FortuneError>,
) -> bool {
    let l = pre.listing_at(market_id, asset_id, seller);
    if caller != seller {
        r == Err::<(), FortuneError>(FortuneError::InvalidAskAuth) && post == pre
    } else {
        &&& r == Ok::<(), FortuneError>(())
        &&& post.has_listing(market_id, asset_id, seller)
        &&& post.listing_at(market_id, asset_id, seller) == (Listing {
            market: market_id,
            seller: seller,
            asset_id: asset_id,
            ask: amount,
            locked: l.locked,
        })
        &&& listings_unchanged_except(pre, post, market_id, asset_id, seller)
        &&& balances_unchanged(pre, post)
        &&& holdings_unchanged(pre, post)
        &&& markets_unchanged(pre, post)
    }
}

/// What a closure did: a locked listing rejects the closure untouched;
/// otherwise the asset returns from its vault to the seller and the
/// listing record is gone. No balance changes.
pub open spec fn close_listing_result(
    pre: Marketplace,
    post: Marketplace,
    caller: u64,
    market_id: u64,
    asset_id: u64,
    r: Result<(), FortuneError>,
) -> bool {
    let l = pre.listing_at(market_id, asset_id, caller);
    if l.locked {
        r == Err::<(), FortuneError>(FortuneError::LockedListing) && post == pre
    } else {
        &&& r == Ok::<(), FortuneError>(())
        &&& !post.has_listing(market_id, asset_id, caller)
        &&& listings_unchanged_except(pre, post, market_id, asset_id, caller)
        &&& post.holder_of(asset_id) == Some(AccountId::User(caller))
        &&& holdings_unchanged_except(pre, post, asset_id)
        &&& balances_unchanged(pre, post)
        &&& markets_unchanged(pre, post)
    }
}

/// What a fee withdrawal did: a caller other than the market's authority
/// is rejected untouched; a vault balance below the amount is rejected
/// untouched; otherwise exactly `amount` moves from the market's fee vault
/// to the destination caller's account.
pub open spec fn withdraw_fees_result(
    pre: Marketplace,
    post: Marketplace,
    caller: u64,
    market_id: u64,
    amount: u64,
    destination: u64,
    r: Result<(), FortuneError>,
) -> bool {
    let vault = AccountId::FeeVault(market_id);
    let dest = AccountId::User(destination);
    if caller != pre.market_at(market_id).authority {
        r == Err::<(), FortuneError>(FortuneError::InvalidAskAuth) && post == pre
    } else if pre.balance_of(vault) < amount {
        r == Err::<(), FortuneError>(FortuneError::InsufficientFunds) && post == pre
    } else {
        &&& r == Ok::<(), FortuneError>(())
        &&& post.balance_of(vault) == pre.balance_of(vault) - amount
        &&& post.balance_of(dest) == pre.balance_of(dest) + amount
        &&& forall|x: AccountId|
            x != vault && x != dest ==> #[trigger] post.balance_of(x) == pre.balance_of(x)
        &&& post.total_supply() == pre.total_supply()
        &&& listings_unchanged(pre, post)
        &&& holdings_unchanged(pre, post)
        &&& markets_unchanged(pre, post)
    }
}

} // verus!
