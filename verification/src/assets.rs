//! The fungible-asset ledger: per-asset issuance totals and account
//! balances, for both traded assets and liquidity-share assets.
//!
//! Each asset keeps the invariant that its recorded total issuance equals
//! the sum of all balances held in it; that is what lets a transfer or a
//! mint be proved free of balance overflow.

use crate::accounts::{balance_in, BalanceMap};
use vstd::prelude::*;

verus! {

/// The ghost image of one asset: its total issuance and its balances.
#[verifier::ext_equal]
pub struct AssetView {
    pub total: u128,
    pub balances: Map<u64, u128>,
}

struct AssetEntry {
    id: u32,
    total: u128,
    balances: BalanceMap,
}

/// Asset identifiers appear at most once.
spec fn uniq_ids(s: Seq<AssetEntry>) -> bool {
    forall|i: int, j: int| 0 <= i < j < s.len() ==> s[i].id != s[j].id
}

/// An entry's balance store is well-formed and covers its total.
spec fn entry_ok(e: AssetEntry) -> bool {
    e.balances.wf() && e.total == e.balances.total()
}

/// Every entry is well-formed.
spec fn entries_wf(s: Seq<AssetEntry>) -> bool {
    forall|i: int| 0 <= i < s.len() ==> #[trigger] entry_ok(s[i])
}

spec fn entry_view(e: AssetEntry) -> AssetView {
    AssetView { total: e.total, balances: e.balances@ }
}

spec fn amap_of(s: Seq<AssetEntry>) -> Map<u32, AssetView>
    decreases s.len(),
{
    if s.len() == 0 {
        Map::empty()
    } else {
        amap_of(s.drop_last()).insert(s.last().id, entry_view(s.last()))
    }
}

/// The total issuance of `id` in `m`; an asset never created has zero.
pub open spec fn asset_total(m: Map<u32, AssetView>, id: u32) -> u128 {
    if m.contains_key(id) {
        m[id].total
    } else {
        0
    }
}

/// The balance of `k` in asset `id`; zero if the asset or account is absent.
pub open spec fn asset_balance(m: Map<u32, AssetView>, id: u32, k: u64) -> u128 {
    if m.contains_key(id) {
        balance_in(m[id].balances, k)
    } else {
        0
    }
}

proof fn lemma_amap_of_contains(s: Seq<AssetEntry>, id: u32)
    ensures
        amap_of(s).contains_key(id) <==> exists|i: int| 0 <= i < s.len() && s[i].id == id,
    decreases s.len(),
{
    if s.len() > 0 {
        lemma_amap_of_contains(s.drop_last(), id);
        if s.last().id == id {
            assert(s[s.len() - 1].id == id);
        } else {
            if exists|i: int| 0 <= i < s.len() && s[i].id == id {
                let i = choose|i: int| 0 <= i < s.len() && s[i].id == id;
                assert(s.drop_last()[i].id == id);
            }
        }
    }
}

proof fn lemma_uniq_ids_drop_last(s: Seq<AssetEntry>)
    requires
        uniq_ids(s),
        s.len() > 0,
    ensures
        uniq_ids(s.drop_last()),
{
    assert forall|i: int, j: int| 0 <= i < j < s.drop_last().len() implies s.drop_last()[i].id
        != s.drop_last()[j].id by {
        assert(s[i].id != s[j].id);
    }
}

proof fn lemma_amap_of_get(s: Seq<AssetEntry>, i: int)
    requires
        uniq_ids(s),
        0 <= i < s.len(),
    ensures
        amap_of(s).contains_key(s[i].id),
        amap_of(s)[s[i].id] == entry_view(s[i]),
    decreases s.len(),
{
    if i == s.len() - 1 {
    } else {
        lemma_uniq_ids_drop_last(s);
        lemma_amap_of_get(s.drop_last(), i);
        assert(s.last().id != s[i].id);
    }
}

proof fn lemma_amap_of_update(s: Seq<AssetEntry>, i: int, e: AssetEntry)
    requires
        uniq_ids(s),
        0 <= i < s.len(),
        e.id == s[i].id,
    ensures
        uniq_ids(s.update(i, e)),
        amap_of(s.update(i, e)) == amap_of(s).insert(e.id, entry_view(e)),
    decreases s.len(),
{
    let t = s.update(i, e);
    assert forall|x: int, y: int| 0 <= x < y < t.len() implies t[x].id != t[y].id by {
        assert(s[x].id != s[y].id);
    }
    if i == s.len() - 1 {
        assert(t.drop_last() =~= s.drop_last());
        assert(amap_of(t) =~= amap_of(s).insert(e.id, entry_view(e)));
    } else {
        lemma_uniq_ids_drop_last(s);
        lemma_amap_of_update(s.drop_last(), i, e);
        assert(t.drop_last() =~= s.drop_last().update(i, e));
        assert(s.last().id != s[i].id);
        assert(amap_of(t) =~= amap_of(s).insert(e.id, entry_view(e)));
    }
}

proof fn lemma_amap_of_push(s: Seq<AssetEntry>, e: AssetEntry)
    requires
        uniq_ids(s),
        !amap_of(s).contains_key(e.id),
    ensures
        uniq_ids(s.push(e)),
        amap_of(s.push(e)) == amap_of(s).insert(e.id, entry_view(e)),
{
    lemma_amap_of_contains(s, e.id);
    let t = s.push(e);
    assert forall|x: int, y: int| 0 <= x < y < t.len() implies t[x].id != t[y].id by {
        if y < s.len() {
            assert(s[x].id != s[y].id);
        } else {
            assert(t[x] == s[x]);
        }
    }
    assert(t.drop_last() =~= s);
}

/// All fungible assets, keyed by asset identifier.
pub struct AssetLedger {
    assets: Vec<AssetEntry>,
}

impl View for AssetLedger {
    type V = Map<u32, AssetView>;

    closed spec fn view(&self) -> Map<u32, AssetView> {
        amap_of(self.assets@)
    }
}

impl AssetLedger {
    /// Identifiers are unique and every asset covers its total.
    pub closed spec fn wf(self) -> bool {
        uniq_ids(self.assets@) && entries_wf(self.assets@)
    }

    /// An empty ledger.
    pub fn new() -> (r: AssetLedger)
        ensures
            r.wf(),
            r@ == Map::<u32, AssetView>::empty(),
    {
        AssetLedger { assets: Vec::new() }
    }

    /// The position of asset `id`, if it was ever created.
    fn find(&self, id: u32) -> (r: Option<usize>)
        requires
            self.wf(),
        ensures
            match r {
                Some(i) => i < self.assets@.len() && self.assets@[i as int].id == id
                    && self@.contains_key(id) && self@[id] == entry_view(self.assets@[i as int]),
                None => !self@.contains_key(id),
            },
    {
        let n = self.assets.len();
        let mut i: usize = 0;
        while i < n
            invariant
                n == self.assets@.len(),
                self.wf(),
                forall|j: int| 0 <= j < i ==> self.assets@[j].id != id,
            decreases n - i,
        {
            if self.assets[i].id == id {
                proof {
                    lemma_amap_of_get(self.assets@, i as int);
                }
                return Some(i);
            }
            i += 1;
        }
        proof {
            lemma_amap_of_contains(self.assets@, id);
        }
        None
    }

    /// Whether asset `id` exists.
    pub fn contains(&self, id: u32) -> (r: bool)
        requires
            self.wf(),
        ensures
            r == self@.contains_key(id),
    {
        self.find(id).is_some()
    }

    /// The total issuance of asset `id`; zero if it was never created.
    pub fn total_issuance(&self, id: u32) -> (r: u128)
        requires
            self.wf(),
        ensures
            r == asset_total(self@, id),
    {
        match self.find(id) {
            Some(i) => self.assets[i].total,
            None => 0,
        }
    }

    /// The balance of `k` in asset `id`, or `None` if the asset is absent.
    pub fn maybe_balance(&self, id: u32, k: u64) -> (r: Option<u128>)
        requires
            self.wf(),
        ensures
            self@.contains_key(id) ==> r == Some(asset_balance(self@, id, k)),
            !self@.contains_key(id) ==> r is None,
    {
        match self.find(id) {
            Some(i) => {
                proof {
                    assert(entry_ok(self.assets@[i as int]));
                }
                Some(self.assets[i].balances.get(k))
            },
            None => None,
        }
    }

    /// The balance of `k` in asset `id`; zero if the asset is absent.
    pub fn balance(&self, id: u32, k: u64) -> (r: u128)
        requires
            self.wf(),
        ensures
            r == asset_balance(self@, id, k),
    {
        match self.find(id) {
            Some(i) => {
                proof {
                    assert(entry_ok(self.assets@[i as int]));
                }
                self.assets[i].balances.get(k)
            },
            None => 0,
        }
    }

    /// Creates asset `id` with no issuance; fails when the id is taken.
    pub fn create(&mut self, id: u32) -> (r: bool)
        requires
            old(self).wf(),
        ensures
            final(self).wf(),
            r <==> !old(self)@.contains_key(id),
            r ==> final(self)@ == old(self)@.insert(
                id,
                AssetView { total: 0, balances: Map::empty() },
            ),
            !r ==> final(self)@ == old(self)@,
    {
        match self.find(id) {
            Some(_) => false,
            None => {
                let entry = AssetEntry { id, total: 0, balances: BalanceMap::new() };
                proof {
                    lemma_amap_of_push(self.assets@, entry);
                }
                self.assets.push(entry);
                true
            },
        }
    }

    /// Mints `amount` of asset `id` into account `k`; fails exactly when the
    /// new issuance total would not fit.
    pub fn mint(&mut self, id: u32, k: u64, amount: u128) -> (r: bool)
        requires
            old(self).wf(),
            old(self)@.contains_key(id),
        ensures
            final(self).wf(),
            r <==> asset_total(old(self)@, id) + amount <= u128::MAX,
            r ==> final(self)@ == old(self)@.insert(
                id,
                AssetView {
                    total: (asset_total(old(self)@, id) + amount) as u128,
                    balances: old(self)@[id].balances.insert(
                        k,
                        (asset_balance(old(self)@, id, k) + amount) as u128,
                    ),
                },
            ),
            !r ==> final(self)@ == old(self)@,
    {
        let i = match self.find(id) {
            Some(i) => i,
            None => {
                proof {
                    assert(false);
                }
                return false;
            },
        };
        let new_total = match self.assets[i].total.checked_add(amount) {
            Some(t) => t,
            None => {
                return false;
            },
        };
        let ghost s0 = self.assets@;
        proof {
            assert(entry_ok(s0[i as int]));
        }
        let old_balance = self.assets[i].balances.get(k);
        proof {
            s0[i as int].balances.lemma_balance_le_total(k);
        }
        let entry = &mut self.assets[i];
        entry.balances.set(k, old_balance + amount);
        entry.total = new_total;
        proof {
            let s1 = self.assets@;
            assert forall|j: int| 0 <= j < s1.len() implies #[trigger] entry_ok(s1[j]) by {
                if j != i {
                    assert(s1[j] == s0[j]);
                    assert(entry_ok(s0[j]));
                }
            }
            lemma_amap_of_update(s0, i as int, s1[i as int]);
            assert(final(self)@ =~~= old(self)@.insert(
                id,
                AssetView {
                    total: new_total,
                    balances: old(self)@[id].balances.insert(k, (old_balance + amount) as u128),
                },
            ));
        }
        true
    }

    /// Burns `amount` of asset `id` from account `k`; the caller has checked
    /// that the account holds that much.
    pub fn burn(&mut self, id: u32, k: u64, amount: u128)
        requires
            old(self).wf(),
            old(self)@.contains_key(id),
            asset_balance(old(self)@, id, k) >= amount,
        ensures
            final(self).wf(),
            final(self)@ == old(self)@.insert(
                id,
                AssetView {
                    total: (asset_total(old(self)@, id) - amount) as u128,
                    balances: old(self)@[id].balances.insert(
                        k,
                        (asset_balance(old(self)@, id, k) - amount) as u128,
                    ),
                },
            ),
    {
        let i = match self.find(id) {
            Some(i) => i,
            None => {
                proof {
                    assert(false);
                }
                return ;
            },
        };
        let ghost s0 = self.assets@;
        proof {
            assert(entry_ok(s0[i as int]));
        }
        let old_balance = self.assets[i].balances.get(k);
        proof {
            s0[i as int].balances.lemma_balance_le_total(k);
        }
        let old_total = self.assets[i].total;
        let entry = &mut self.assets[i];
        entry.balances.set(k, old_balance - amount);
        entry.total = old_total - amount;
        proof {
            let s1 = self.assets@;
            assert forall|j: int| 0 <= j < s1.len() implies #[trigger] entry_ok(s1[j]) by {
                if j != i {
                    assert(s1[j] == s0[j]);
                    assert(entry_ok(s0[j]));
                }
            }
            lemma_amap_of_update(s0, i as int, s1[i as int]);
            assert(final(self)@ =~~= old(self)@.insert(
                id,
                AssetView {
                    total: (asset_total(old(self)@, id) - amount) as u128,
                    balances: old(self)@[id].balances.insert(k, (old_balance - amount) as u128),
                },
            ));
        }
    }

    /// Moves `amount` of asset `id` from `from` to `to`; the caller has
    /// checked that `from` holds that much. A transfer to oneself changes
    /// nothing; no other transfer can overflow, because the two balances
    /// together never exceed the asset's total issuance.
    pub fn transfer(&mut self, id: u32, from: u64, to: u64, amount: u128)
        requires
            old(self).wf(),
            old(self)@.contains_key(id),
            asset_balance(old(self)@, id, from) >= amount,
        ensures
            final(self).wf(),
            from != to ==> asset_balance(old(self)@, id, to) + amount <= u128::MAX,
            from == to ==> final(self)@ == old(self)@,
            from != to ==> final(self)@ == old(self)@.insert(
                id,
                AssetView {
                    total: asset_total(old(self)@, id),
                    balances: old(self)@[id].balances.insert(
                        from,
                        (asset_balance(old(self)@, id, from) - amount) as u128,
                    ).insert(to, (asset_balance(old(self)@, id, to) + amount) as u128),
                },
            ),
    {
        if from == to {
            return ;
        }
        let i = match self.find(id) {
            Some(i) => i,
            None => {
                proof {
                    assert(false);
                }
                return ;
            },
        };
        let ghost s0 = self.assets@;
        proof {
            assert(entry_ok(s0[i as int]));
        }
        let from_balance = self.assets[i].balances.get(from);
        let to_balance = self.assets[i].balances.get(to);
        proof {
            s0[i as int].balances.lemma_balances_le_total(from, to);
        }
        let entry = &mut self.assets[i];
        entry.balances.set(from, from_balance - amount);
        entry.balances.set(to, to_balance + amount);
        proof {
            let s1 = self.assets@;
            assert forall|j: int| 0 <= j < s1.len() implies #[trigger] entry_ok(s1[j]) by {
                if j != i {
                    assert(s1[j] == s0[j]);
                    assert(entry_ok(s0[j]));
                }
            }
            lemma_amap_of_update(s0, i as int, s1[i as int]);
            assert(final(self)@ =~~= old(self)@.insert(
                id,
                AssetView {
                    total: asset_total(old(self)@, id),
                    balances: old(self)@[id].balances.insert(
                        from,
                        (from_balance - amount) as u128,
                    ).insert(to, (to_balance + amount) as u128),
                },
            ));
        }
    }

    /// Two distinct balances together never exceed the asset's total
    /// issuance.
    pub proof fn lemma_balances_le_total(&self, id: u32, k1: u64, k2: u64)
        requires
            self.wf(),
            k1 != k2,
        ensures
            asset_balance(self@, id, k1) + asset_balance(self@, id, k2) <= asset_total(self@, id),
    {
        lemma_amap_of_contains(self.assets@, id);
        if self@.contains_key(id) {
            let i = choose|i: int| 0 <= i < self.assets@.len() && self.assets@[i].id == id;
            lemma_amap_of_get(self.assets@, i);
            assert(entry_ok(self.assets@[i]));
            self.assets@[i].balances.lemma_balances_le_total(k1, k2);
        }
    }

    /// No single balance exceeds the asset's total issuance.
    pub proof fn lemma_balance_le_total(&self, id: u32, k: u64)
        requires
            self.wf(),
        ensures
            asset_balance(self@, id, k) <= asset_total(self@, id),
    {
        lemma_amap_of_contains(self.assets@, id);
        if self@.contains_key(id) {
            let i = choose|i: int| 0 <= i < self.assets@.len() && self.assets@[i].id == id;
            lemma_amap_of_get(self.assets@, i);
            assert(entry_ok(self.assets@[i]));
            self.assets@[i].balances.lemma_balance_le_total(k);
        }
    }
}

} // verus!
