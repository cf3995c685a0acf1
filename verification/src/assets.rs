//! Custody of unique assets: which account holds each asset's single unit.
//!
//! Every asset in the model is unique — exactly one unit exists — so
//! holding is recorded as a map from asset id to the holding account. An
//! account "holds one unit" of an asset exactly when it is that asset's
//! holder, and "holds zero units" otherwise.

use vstd::prelude::*;

use crate::ids::AccountId;

verus! {

/// The holder recorded by the first entry for asset `a`, if any.
pub open spec fn find_holder(s: Seq<(u64, AccountId)>, a: u64) -> Option<AccountId>
    decreases s.len(),
{
    if s.len() == 0 {
        None
    } else if s.first().0 == a {
        Some(s.first().1)
    } else {
        find_holder(s.drop_first(), a)
    }
}

/// Looking up any asset after overwriting the first entry of `a`: `a` sees
/// the new holder and every other asset is unaffected.
proof fn lemma_set_at(s: Seq<(u64, AccountId)>, i: int, a: u64, h: AccountId)
    requires
        0 <= i < s.len(),
        s[i].0 == a,
        forall|j: int| 0 <= j < i ==> (#[trigger] s[j]).0 != a,
    ensures
        find_holder(s.update(i, (a, h)), a) == Some(h),
        forall|x: u64| x != a ==> find_holder(s.update(i, (a, h)), x) == find_holder(s, x),
    decreases s.len(),
{
    let t = s.update(i, (a, h));
    if i == 0 {
        assert(t.drop_first() =~= s.drop_first());
        assert forall|x: u64| x != a implies find_holder(t, x) == find_holder(s, x) by {
            assert(find_holder(t, x) == find_holder(t.drop_first(), x));
            assert(find_holder(s, x) == find_holder(s.drop_first(), x));
        }
    } else {
        assert(t.first() == s.first());
        assert(t.drop_first() =~= s.drop_first().update(i - 1, (a, h)));
        lemma_set_at(s.drop_first(), i - 1, a, h);
        assert forall|x: u64| x != a implies find_holder(t, x) == find_holder(s, x) by {
            if s.first().0 != x {
                assert(find_holder(t, x) == find_holder(t.drop_first(), x));
                assert(find_holder(s, x) == find_holder(s.drop_first(), x));
            }
        }
    }
}

/// Looking up any asset after appending an entry for an asset with no
/// earlier entry: the new asset sees the new holder and every other asset
/// is unaffected.
proof fn lemma_set_push(s: Seq<(u64, AccountId)>, a: u64, h: AccountId)
    requires
        forall|j: int| 0 <= j < s.len() ==> (#[trigger] s[j]).0 != a,
    ensures
        find_holder(s.push((a, h)), a) == Some(h),
        forall|x: u64| x != a ==> find_holder(s.push((a, h)), x) == find_holder(s, x),
    decreases s.len(),
{
    let t = s.push((a, h));
    if s.len() == 0 {
        assert(t.drop_first() =~= s);
        assert forall|x: u64| x != a implies find_holder(t, x) == find_holder(s, x) by {
            assert(find_holder(t, x) == find_holder(t.drop_first(), x));
        }
    } else {
        assert(t.first() == s.first());
        assert(t.drop_first() =~= s.drop_first().push((a, h)));
        lemma_set_push(s.drop_first(), a, h);
        assert forall|x: u64| x != a implies find_holder(t, x) == find_holder(s, x) by {
            if s.first().0 != x {
                assert(find_holder(t, x) == find_holder(t.drop_first(), x));
                assert(find_holder(s, x) == find_holder(s.drop_first(), x));
            }
        }
    }
}

/// The first entry for `a`, when one exists at index `i` with none earlier,
/// is what lookup returns.
proof fn lemma_holder_at(s: Seq<(u64, AccountId)>, i: int, a: u64)
    requires
        0 <= i < s.len(),
        s[i].0 == a,
        forall|j: int| 0 <= j < i ==> (#[trigger] s[j]).0 != a,
    ensures
        find_holder(s, a) == Some(s[i].1),
    decreases s.len(),
{
    if i > 0 {
        lemma_holder_at(s.drop_first(), i - 1, a);
    }
}

/// An asset with no entry looks up to nothing.
proof fn lemma_holder_absent(s: Seq<(u64, AccountId)>, a: u64)
    requires
        forall|j: int| 0 <= j < s.len() ==> (#[trigger] s[j]).0 != a,
    ensures
        find_holder(s, a) == None::<AccountId>,
    decreases s.len(),
{
    if s.len() > 0 {
        lemma_holder_absent(s.drop_first(), a);
    }
}

/// The custody book of all unique assets.
pub struct AssetBook {
    entries: Vec<(u64, AccountId)>,
}

impl AssetBook {
    /// Each asset has at most one entry.
    pub closed spec fn wf(self) -> bool {
        forall|i: int, j: int|
            0 <= i < j < self.entries@.len() ==> (#[trigger] self.entries@[i]).0 != (
            #[trigger] self.entries@[j]).0
    }

    /// The account holding asset `a`'s unit, or nothing when no such asset
    /// exists.
    pub closed spec fn holder_of(self, a: u64) -> Option<AccountId> {
        find_holder(self.entries@, a)
    }

    /// An empty book: no assets exist.
    pub(crate) fn new() -> (r: AssetBook)
        ensures
            r.wf(),
            forall|a: u64| r.holder_of(a) == None::<AccountId>,
    {
        AssetBook { entries: Vec::new() }
    }

    /// The index of the first entry for `a`, if any.
    fn index_of(entries: &Vec<(u64, AccountId)>, a: u64) -> (r: Option<usize>)
        ensures
            match r {
                Some(i) => i < entries@.len() && entries@[i as int].0 == a && forall|j: int|
                    0 <= j < i ==> (#[trigger] entries@[j]).0 != a,
                None => forall|j: int|
                    0 <= j < entries@.len() ==> (#[trigger] entries@[j]).0 != a,
            },
    {
        let n: usize = entries.len();
        let mut i: usize = 0;
        while i < n
            invariant
                n == entries@.len(),
                i <= n,
                forall|j: int| 0 <= j < i ==> (#[trigger] entries@[j]).0 != a,
            decreases n - i,
        {
            if entries[i].0 == a {
                return Some(i);
            }
            i = i + 1;
        }
        None
    }

    /// Reads the holder of asset `a`.
    pub fn holder(&self, a: u64) -> (r: Option<AccountId>)
        ensures
            r == self.holder_of(a),
    {
        match Self::index_of(&self.entries, a) {
            Some(i) => {
                proof {
                    lemma_holder_at(self.entries@, i as int, a);
                }
                Some(self.entries[i].1)
            },
            None => {
                proof {
                    lemma_holder_absent(self.entries@, a);
                }
                None
            },
        }
    }

    /// Brings a new asset into existence in `owner`'s hands. Succeeds
    /// exactly when no asset with this id exists yet; on failure nothing
    /// changes.
    pub(crate) fn mint(&mut self, a: u64, owner: AccountId) -> (ok: bool)
        requires
            old(self).wf(),
        ensures
            final(self).wf(),
            ok == (old(self).holder_of(a) == None::<AccountId>),
            !ok ==> *final(self) == *old(self),
            ok ==> final(self).holder_of(a) == Some(owner),
            ok ==> forall|x: u64| x != a ==> final(self).holder_of(x) == old(self).holder_of(x),
    {
        match Self::index_of(&self.entries, a) {
            Some(i) => {
                proof {
                    lemma_holder_at(self.entries@, i as int, a);
                }
                false
            },
            None => {
                proof {
                    lemma_holder_absent(self.entries@, a);
                    lemma_set_push(self.entries@, a, owner);
                }
                self.entries.push((a, owner));
                true
            },
        }
    }

    /// Moves asset `a`'s unit from `from` to `to`. Succeeds exactly when
    /// `from` is the current holder; on failure nothing changes. No other
    /// asset's holder ever changes.
    pub(crate) fn move_unit(&mut self, from: AccountId, to: AccountId, a: u64) -> (ok: bool)
        requires
            old(self).wf(),
        ensures
            final(self).wf(),
            ok == (old(self).holder_of(a) == Some(from)),
            !ok ==> *final(self) == *old(self),
            ok ==> final(self).holder_of(a) == Some(to),
            ok ==> forall|x: u64| x != a ==> final(self).holder_of(x) == old(self).holder_of(x),
    {
        match Self::index_of(&self.entries, a) {
            Some(i) => {
                proof {
                    lemma_holder_at(self.entries@, i as int, a);
                }
                if self.entries[i].1 == from {
                    proof {
                        lemma_set_at(self.entries@, i as int, a, to);
                    }
                    self.entries.set(i, (a, to));
                    true
                } else {
                    false
                }
            },
            None => {
                proof {
                    lemma_holder_absent(self.entries@, a);
                }
                false
            },
        }
    }
}

} // verus!
