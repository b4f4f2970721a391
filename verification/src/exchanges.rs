//! The exchange registry: one `Exchange` record per traded asset, keyed by
//! the asset identifier, with a verified sum of all currency reserves.
//!
//! The sum is what ties the registry to the custodial account: the engine
//! keeps the invariant that the pool account's currency balance covers the
//! reserves of every exchange together.

use crate::types::Exchange;
use vstd::prelude::*;

verus! {

/// Asset identifiers appear at most once.
spec fn uniq_exchanges(s: Seq<Exchange>) -> bool {
    forall|i: int, j: int| 0 <= i < j < s.len() ==> s[i].asset_id != s[j].asset_id
}

spec fn emap_of(s: Seq<Exchange>) -> Map<u32, Exchange>
    decreases s.len(),
{
    if s.len() == 0 {
        Map::empty()
    } else {
        emap_of(s.drop_last()).insert(s.last().asset_id, s.last())
    }
}

spec fn reserve_sum_of(s: Seq<Exchange>) -> int
    decreases s.len(),
{
    if s.len() == 0 {
        0int
    } else {
        reserve_sum_of(s.drop_last()) + s.last().currency_reserve
    }
}

proof fn lemma_emap_of_contains(s: Seq<Exchange>, id: u32)
    ensures
        emap_of(s).contains_key(id) <==> exists|i: int| 0 <= i < s.len() && s[i].asset_id == id,
    decreases s.len(),
{
    if s.len() > 0 {
        lemma_emap_of_contains(s.drop_last(), id);
        if s.last().asset_id == id {
            assert(s[s.len() - 1].asset_id == id);
        } else {
            if exists|i: int| 0 <= i < s.len() && s[i].asset_id == id {
                let i = choose|i: int| 0 <= i < s.len() && s[i].asset_id == id;
                assert(s.drop_last()[i].asset_id == id);
            }
        }
    }
}

proof fn lemma_uniq_exchanges_drop_last(s: Seq<Exchange>)
    requires
        uniq_exchanges(s),
        s.len() > 0,
    ensures
        uniq_exchanges(s.drop_last()),
{
    assert forall|i: int, j: int|
        0 <= i < j < s.drop_last().len() implies s.drop_last()[i].asset_id
        != s.drop_last()[j].asset_id by {
        assert(s[i].asset_id != s[j].asset_id);
    }
}

proof fn lemma_emap_of_get(s: Seq<Exchange>, i: int)
    requires
        uniq_exchanges(s),
        0 <= i < s.len(),
    ensures
        emap_of(s).contains_key(s[i].asset_id),
        emap_of(s)[s[i].asset_id] == s[i],
    decreases s.len(),
{
    if i == s.len() - 1 {
    } else {
        lemma_uniq_exchanges_drop_last(s);
        lemma_emap_of_get(s.drop_last(), i);
        assert(s.last().asset_id != s[i].asset_id);
    }
}

proof fn lemma_emap_of_update(s: Seq<Exchange>, i: int, e: Exchange)
    requires
        uniq_exchanges(s),
        0 <= i < s.len(),
        e.asset_id == s[i].asset_id,
    ensures
        uniq_exchanges(s.update(i, e)),
        emap_of(s.update(i, e)) == emap_of(s).insert(e.asset_id, e),
    decreases s.len(),
{
    let t = s.update(i, e);
    assert forall|x: int, y: int| 0 <= x < y < t.len() implies t[x].asset_id != t[y].asset_id by {
        assert(s[x].asset_id != s[y].asset_id);
    }
    if i == s.len() - 1 {
        assert(t.drop_last() =~= s.drop_last());
        assert(emap_of(t) =~= emap_of(s).insert(e.asset_id, e));
    } else {
        lemma_uniq_exchanges_drop_last(s);
        lemma_emap_of_update(s.drop_last(), i, e);
        assert(t.drop_last() =~= s.drop_last().update(i, e));
        assert(s.last().asset_id != s[i].asset_id);
        assert(emap_of(t) =~= emap_of(s).insert(e.asset_id, e));
    }
}

proof fn lemma_emap_of_push(s: Seq<Exchange>, e: Exchange)
    requires
        uniq_exchanges(s),
        !emap_of(s).contains_key(e.asset_id),
    ensures
        uniq_exchanges(s.push(e)),
        emap_of(s.push(e)) == emap_of(s).insert(e.asset_id, e),
        reserve_sum_of(s.push(e)) == reserve_sum_of(s) + e.currency_reserve,
{
    lemma_emap_of_contains(s, e.asset_id);
    let t = s.push(e);
    assert forall|x: int, y: int| 0 <= x < y < t.len() implies t[x].asset_id != t[y].asset_id by {
        if y < s.len() {
            assert(s[x].asset_id != s[y].asset_id);
        } else {
            assert(t[x] == s[x]);
        }
    }
    assert(t.drop_last() =~= s);
}

proof fn lemma_reserve_sum_nonneg(s: Seq<Exchange>)
    ensures
        reserve_sum_of(s) >= 0,
    decreases s.len(),
{
    if s.len() > 0 {
        lemma_reserve_sum_nonneg(s.drop_last());
    }
}

proof fn lemma_reserve_sum_update(s: Seq<Exchange>, i: int, e: Exchange)
    requires
        0 <= i < s.len(),
    ensures
        reserve_sum_of(s.update(i, e)) == reserve_sum_of(s) - s[i].currency_reserve
            + e.currency_reserve,
    decreases s.len(),
{
    let t = s.update(i, e);
    if i == s.len() - 1 {
        assert(t.drop_last() =~= s.drop_last());
    } else {
        lemma_reserve_sum_update(s.drop_last(), i, e);
        assert(t.drop_last() =~= s.drop_last().update(i, e));
    }
}

proof fn lemma_reserve_sum_elem(s: Seq<Exchange>, i: int)
    requires
        0 <= i < s.len(),
    ensures
        s[i].currency_reserve <= reserve_sum_of(s),
    decreases s.len(),
{
    if i == s.len() - 1 {
        lemma_reserve_sum_nonneg(s.drop_last());
    } else {
        lemma_reserve_sum_elem(s.drop_last(), i);
    }
}

/// All exchanges, keyed by traded-asset identifier.
pub struct ExchangeMap {
    entries: Vec<Exchange>,
}

impl View for ExchangeMap {
    type V = Map<u32, Exchange>;

    closed spec fn view(&self) -> Map<u32, Exchange> {
        emap_of(self.entries@)
    }
}

impl ExchangeMap {
    /// Keys are unique, so the map view is faithful.
    pub closed spec fn wf(self) -> bool {
        uniq_exchanges(self.entries@)
    }

    /// The sum of the currency reserves of all exchanges.
    pub closed spec fn reserve_sum(self) -> int {
        reserve_sum_of(self.entries@)
    }

    /// An empty registry.
    pub fn new() -> (r: ExchangeMap)
        ensures
            r.wf(),
            r@ == Map::<u32, Exchange>::empty(),
            r.reserve_sum() == 0,
    {
        ExchangeMap { entries: Vec::new() }
    }

    /// The exchange for `asset_id`, if one was registered.
    pub fn lookup(&self, asset_id: u32) -> (r: Option<Exchange>)
        requires
            self.wf(),
        ensures
            match r {
                Some(e) => self@.contains_key(asset_id) && self@[asset_id] == e,
                None => !self@.contains_key(asset_id),
            },
    {
        let n = self.entries.len();
        let mut i: usize = 0;
        while i < n
            invariant
                n == self.entries@.len(),
                self.wf(),
                forall|j: int| 0 <= j < i ==> self.entries@[j].asset_id != asset_id,
            decreases n - i,
        {
            if self.entries[i].asset_id == asset_id {
                proof {
                    lemma_emap_of_get(self.entries@, i as int);
                }
                return Some(self.entries[i]);
            }
            i += 1;
        }
        proof {
            lemma_emap_of_contains(self.entries@, asset_id);
        }
        None
    }

    /// Whether an exchange for `asset_id` is registered.
    pub fn contains(&self, asset_id: u32) -> (r: bool)
        requires
            self.wf(),
        ensures
            r == self@.contains_key(asset_id),
    {
        self.lookup(asset_id).is_some()
    }

    /// Registers or replaces the exchange for `e.asset_id`.
    pub fn insert(&mut self, e: Exchange)
        requires
            old(self).wf(),
        ensures
            final(self).wf(),
            final(self)@ == old(self)@.insert(e.asset_id, e),
            final(self).reserve_sum() == old(self).reserve_sum() - (if old(self)@.contains_key(
                e.asset_id,
            ) {
                old(self)@[e.asset_id].currency_reserve as int
            } else {
                0int
            }) + e.currency_reserve,
    {
        let n = self.entries.len();
        let mut i: usize = 0;
        while i < n
            invariant
                n == self.entries@.len(),
                self.wf(),
                self.entries@ == old(self).entries@,
                forall|j: int| 0 <= j < i ==> self.entries@[j].asset_id != e.asset_id,
            decreases n - i,
        {
            if self.entries[i].asset_id == e.asset_id {
                proof {
                    lemma_emap_of_get(self.entries@, i as int);
                    lemma_emap_of_update(self.entries@, i as int, e);
                    lemma_reserve_sum_update(self.entries@, i as int, e);
                }
                self.entries[i] = e;
                return ;
            }
            i += 1;
        }
        proof {
            lemma_emap_of_contains(self.entries@, e.asset_id);
            lemma_emap_of_push(self.entries@, e);
        }
        self.entries.push(e);
    }

    /// One exchange's currency reserve never exceeds the sum of all of them.
    pub proof fn lemma_reserve_le_sum(&self, asset_id: u32)
        requires
            self.wf(),
        ensures
            self.reserve_sum() >= 0,
            self@.contains_key(asset_id) ==> self@[asset_id].currency_reserve
                <= self.reserve_sum(),
    {
        lemma_reserve_sum_nonneg(self.entries@);
        lemma_emap_of_contains(self.entries@, asset_id);
        if self@.contains_key(asset_id) {
            let i = choose|i: int|
                0 <= i < self.entries@.len() && self.entries@[i].asset_id == asset_id;
            lemma_emap_of_get(self.entries@, i);
            lemma_reserve_sum_elem(self.entries@, i);
        }
    }

}

} // verus!
