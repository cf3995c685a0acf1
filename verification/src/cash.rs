//! The currency ledger: every account's balance in the base currency.
//!
//! The ledger tracks the total supply alongside the per-account balances,
//! so a transfer whose source can cover the amount can always credit the
//! destination without overflowing: no account's balance can exceed the
//! total, and the total fits the currency type.

use vstd::prelude::*;

use crate::ids::AccountId;

verus! {

/// The sum of the amounts of all entries.
pub open spec fn sum_amounts(s: Seq<(AccountId, u64)>) -> int
    decreases s.len(),
{
    if s.len() == 0 {
        0
    } else {
        s.first().1 + sum_amounts(s.drop_first())
    }
}

/// The amount of the first entry for account `a`, if any.
pub open spec fn find_amount(s: Seq<(AccountId, u64)>, a: AccountId) -> Option<u64>
    decreases s.len(),
{
    if s.len() == 0 {
        None
    } else if s.first().0 == a {
        Some(s.first().1)
    } else {
        find_amount(s.drop_first(), a)
    }
}

/// The balance of account `a` in the entry list: its entry's amount, or
/// zero when it has no entry.
pub open spec fn amount_of(s: Seq<(AccountId, u64)>, a: AccountId) -> u64 {
    match find_amount(s, a) {
        Some(v) => v,
        None => 0,
    }
}

proof fn lemma_sum_nonneg(s: Seq<(AccountId, u64)>)
    ensures
        sum_amounts(s) >= 0,
    decreases s.len(),
{
    if s.len() > 0 {
        lemma_sum_nonneg(s.drop_first());
    }
}

/// An account's balance never exceeds the sum of all entries.
proof fn lemma_amount_le_sum(s: Seq<(AccountId, u64)>, a: AccountId)
    ensures
        amount_of(s, a) <= sum_amounts(s),
    decreases s.len(),
{
    lemma_sum_nonneg(s);
    if s.len() > 0 {
        lemma_sum_nonneg(s.drop_first());
        if s.first().0 != a {
            lemma_amount_le_sum(s.drop_first(), a);
        }
    }
}

/// Two distinct accounts' balances together never exceed the sum of all
/// entries.
proof fn lemma_pair_le_sum(s: Seq<(AccountId, u64)>, a: AccountId, b: AccountId)
    requires
        a != b,
    ensures
        amount_of(s, a) + amount_of(s, b) <= sum_amounts(s),
    decreases s.len(),
{
    if s.len() == 0 {
    } else if s.first().0 == a {
        lemma_amount_le_sum(s.drop_first(), b);
    } else if s.first().0 == b {
        lemma_amount_le_sum(s.drop_first(), a);
    } else {
        lemma_pair_le_sum(s.drop_first(), a, b);
    }
}

/// Looking up any account after overwriting the first entry of `a`:
/// `a` sees the new amount, every other account is unaffected, and the sum
/// moves by the difference.
proof fn lemma_write_at(s: Seq<(AccountId, u64)>, i: int, a: AccountId, v: u64)
    requires
        0 <= i < s.len(),
        s[i].0 == a,
        forall|j: int| 0 <= j < i ==> (#[trigger] s[j]).0 != a,
    ensures
        find_amount(s.update(i, (a, v)), a) == Some(v),
        forall|x: AccountId|
            x != a ==> find_amount(s.update(i, (a, v)), x) == find_amount(s, x),
        sum_amounts(s.update(i, (a, v))) == sum_amounts(s) - s[i].1 + v,
    decreases s.len(),
{
    let t = s.update(i, (a, v));
    if i == 0 {
        assert(t.drop_first() =~= s.drop_first());
        assert forall|x: AccountId| x != a implies find_amount(t, x) == find_amount(s, x) by {
            assert(find_amount(t, x) == find_amount(t.drop_first(), x));
            assert(find_amount(s, x) == find_amount(s.drop_first(), x));
        }
    } else {
        assert(t.first() == s.first());
        assert(t.drop_first() =~= s.drop_first().update(i - 1, (a, v)));
        lemma_write_at(s.drop_first(), i - 1, a, v);
        assert forall|x: AccountId| x != a implies find_amount(t, x) == find_amount(s, x) by {
            if s.first().0 != x {
                assert(find_amount(t, x) == find_amount(t.drop_first(), x));
                assert(find_amount(s, x) == find_amount(s.drop_first(), x));
            }
        }
    }
}

/// Looking up any account after appending an entry for an account with no
/// earlier entry: the new account sees the new amount, every other account
/// is unaffected, and the sum grows by the new amount.
proof fn lemma_write_push(s: Seq<(AccountId, u64)>, a: AccountId, v: u64)
    requires
        forall|j: int| 0 <= j < s.len() ==> (#[trigger] s[j]).0 != a,
    ensures
        find_amount(s.push((a, v)), a) == Some(v),
        forall|x: AccountId| x != a ==> find_amount(s.push((a, v)), x) == find_amount(s, x),
        sum_amounts(s.push((a, v))) == sum_amounts(s) + v,
    decreases s.len(),
{
    let t = s.push((a, v));
    if s.len() == 0 {
        assert(t.drop_first() =~= s);
        assert forall|x: AccountId| x != a implies find_amount(t, x) == find_amount(s, x) by {
            assert(find_amount(t, x) == find_amount(t.drop_first(), x));
        }
    } else {
        assert(t.first() == s.first());
        assert(t.drop_first() =~= s.drop_first().push((a, v)));
        lemma_write_push(s.drop_first(), a, v);
        assert forall|x: AccountId| x != a implies find_amount(t, x) == find_amount(s, x) by {
            if s.first().0 != x {
                assert(find_amount(t, x) == find_amount(t.drop_first(), x));
                assert(find_amount(s, x) == find_amount(s.drop_first(), x));
            }
        }
    }
}

/// The first entry for `a`, when one exists at index `i` with none earlier,
/// is what lookup returns.
proof fn lemma_find_at(s: Seq<(AccountId, u64)>, i: int, a: AccountId)
    requires
        0 <= i < s.len(),
        s[i].0 == a,
        forall|j: int| 0 <= j < i ==> (#[trigger] s[j]).0 != a,
    ensures
        find_amount(s, a) == Some(s[i].1),
    decreases s.len(),
{
    if i > 0 {
        lemma_find_at(s.drop_first(), i - 1, a);
    }
}

/// An account with no entry looks up to nothing.
proof fn lemma_find_absent(s: Seq<(AccountId, u64)>, a: AccountId)
    requires
        forall|j: int| 0 <= j < s.len() ==> (#[trigger] s[j]).0 != a,
    ensures
        find_amount(s, a) == None::<u64>,
    decreases s.len(),
{
    if s.len() > 0 {
        lemma_find_absent(s.drop_first(), a);
    }
}

/// The currency ledger.
pub struct Ledger {
    entries: Vec<(AccountId, u64)>,
    total: u64,
}

impl Ledger {
    /// Each account has at most one entry, and the tracked total equals the
    /// sum of all balances, so the total supply fits the currency type.
    pub closed spec fn wf(self) -> bool {
        &&& forall|i: int, j: int|
            0 <= i < j < self.entries@.len() ==> (#[trigger] self.entries@[i]).0 != (
            #[trigger] self.entries@[j]).0
        &&& sum_amounts(self.entries@) == self.total as int
    }

    /// The balance of account `a`.
    pub closed spec fn balance_of(self, a: AccountId) -> u64 {
        amount_of(self.entries@, a)
    }

    /// The sum of all balances.
    pub closed spec fn total_supply(self) -> int {
        self.total as int
    }

    /// An empty ledger: no balances, no supply.
    pub(crate) fn new() -> (r: Ledger)
        ensures
            r.wf(),
            r.total_supply() == 0,
            forall|a: AccountId| r.balance_of(a) == 0,
    {
        Ledger { entries: Vec::new(), total: 0 }
    }

    /// The index of the first entry for `a`, if any.
    fn index_of(entries: &Vec<(AccountId, u64)>, a: AccountId) -> (r: Option<usize>)
        ensures
            match r {
                Some(i) => i < entries@.len() && entries@[i as int].0 == a && forall|j: int|
                    0 <= j < i ==> (#[trigger] entries@[j]).0 != a,
                None => forall|j: int|
                    0 <= j < entries@.len() ==> (#[trigger] entries@[j]).0 != a,
            },
    {
        let n: usize = entries.len();
        let mut i: usize = 0;
        while i < n
            invariant
                n == entries@.len(),
                i <= n,
                forall|j: int| 0 <= j < i ==> (#[trigger] entries@[j]).0 != a,
            decreases n - i,
        {
            if entries[i].0 == a {
                return Some(i);
            }
            i = i + 1;
        }
        None
    }

    /// Reads the balance of account `a`.
    pub fn balance(&self, a: AccountId) -> (r: u64)
        ensures
            r == self.balance_of(a),
    {
        match Self::index_of(&self.entries, a) {
            Some(i) => {
                proof {
                    lemma_find_at(self.entries@, i as int, a);
                }
                self.entries[i].1
            },
            None => {
                proof {
                    lemma_find_absent(self.entries@, a);
                }
                0
            },
        }
    }

    /// Sets the balance of `a` to `v`, leaving every other balance alone.
    /// The tracked total is the caller's to restore: this is the one step
    /// inside a transfer where supply and total disagree.
    fn write(&mut self, a: AccountId, v: u64)
        requires
            forall|i: int, j: int|
                0 <= i < j < old(self).entries@.len() ==> (#[trigger] old(self).entries@[i]).0
                    != (#[trigger] old(self).entries@[j]).0,
        ensures
            forall|i: int, j: int|
                0 <= i < j < final(self).entries@.len() ==> (#[trigger] final(self).entries@[i]).0
                    != (#[trigger] final(self).entries@[j]).0,
            final(self).balance_of(a) == v,
            forall|x: AccountId| x != a ==> final(self).balance_of(x) == old(self).balance_of(x),
            sum_amounts(final(self).entries@) == sum_amounts(old(self).entries@) - old(
                self,
            ).balance_of(a) + v,
            final(self).total == old(self).total,
    {
        match Self::index_of(&self.entries, a) {
            Some(i) => {
                proof {
                    lemma_find_at(self.entries@, i as int, a);
                    lemma_write_at(self.entries@, i as int, a, v);
                }
                self.entries.set(i, (a, v));
            },
            None => {
                proof {
                    lemma_find_absent(self.entries@, a);
                    lemma_write_push(self.entries@, a, v);
                }
                self.entries.push((a, v));
            },
        }
    }

    /// Credits account `a` with freshly issued currency, growing the
    /// supply. Succeeds exactly when the new supply still fits the currency
    /// type; on failure nothing changes.
    pub(crate) fn deposit(&mut self, a: AccountId, amount: u64) -> (ok: bool)
        requires
            old(self).wf(),
        ensures
            final(self).wf(),
            ok == (old(self).total_supply() + amount <= u64::MAX),
            !ok ==> *final(self) == *old(self),
            ok ==> final(self).balance_of(a) == old(self).balance_of(a) + amount,
            ok ==> forall|x: AccountId|
                x != a ==> final(self).balance_of(x) == old(self).balance_of(x),
            ok ==> final(self).total_supply() == old(self).total_supply() + amount,
    {
        if amount > u64::MAX - self.total {
            return false;
        }
        let b: u64 = self.balance(a);
        proof {
            lemma_amount_le_sum(self.entries@, a);
        }
        self.write(a, b + amount);
        self.total = self.total + amount;
        true
    }

    /// Moves `amount` from `from` to `to`. Succeeds exactly when `from` can
    /// cover the amount; on failure nothing changes. The supply never
    /// changes, and no third account's balance does either.
    pub(crate) fn transfer(&mut self, from: AccountId, to: AccountId, amount: u64) -> (ok: bool)
        requires
            old(self).wf(),
        ensures
            final(self).wf(),
            ok == (old(self).balance_of(from) >= amount),
            final(self).total_supply() == old(self).total_supply(),
            !ok ==> *final(self) == *old(self),
            ok && from == to ==> *final(self) == *old(self),
            ok && from != to ==> final(self).balance_of(from) == old(self).balance_of(from)
                - amount,
            ok && from != to ==> final(self).balance_of(to) == old(self).balance_of(to) + amount,
            ok && from != to ==> forall|x: AccountId|
                x != from && x != to ==> final(self).balance_of(x) == old(self).balance_of(x),
    {
        let bf: u64 = self.balance(from);
        if bf < amount {
            return false;
        }
        if from == to {
            return true;
        }
        let bt: u64 = self.balance(to);
        proof {
            lemma_pair_le_sum(self.entries@, from, to);
        }
        self.write(from, bf - amount);
        self.write(to, bt + amount);
        true
    }
}

} // verus!
