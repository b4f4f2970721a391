//! A small account-to-balance store with a verified total.
//!
//! Balances live in an association list with unique keys, viewed as a
//! `Map<u64, u128>`. The sum of all stored balances is tracked as a spec
//! value, so a ledger built on top can relate a per-asset issuance total to
//! the balances it covers.

use vstd::prelude::*;

verus! {

/// Keys appear at most once.
pub open spec fn uniq_keys(s: Seq<(u64, u128)>) -> bool {
    forall|i: int, j: int| 0 <= i < j < s.len() ==> s[i].0 != s[j].0
}

/// The association list as a map.
pub open spec fn map_of(s: Seq<(u64, u128)>) -> Map<u64, u128>
    decreases s.len(),
{
    if s.len() == 0 {
        Map::empty()
    } else {
        map_of(s.drop_last()).insert(s.last().0, s.last().1)
    }
}

/// The sum of all stored balances.
pub open spec fn sum_of(s: Seq<(u64, u128)>) -> int
    decreases s.len(),
{
    if s.len() == 0 {
        0int
    } else {
        sum_of(s.drop_last()) + s.last().1
    }
}

/// The balance of `k` in `m`; an absent account holds zero.
pub open spec fn balance_in(m: Map<u64, u128>, k: u64) -> u128 {
    if m.contains_key(k) {
        m[k]
    } else {
        0
    }
}

proof fn lemma_map_of_contains(s: Seq<(u64, u128)>, k: u64)
    ensures
        map_of(s).contains_key(k) <==> exists|i: int| 0 <= i < s.len() && s[i].0 == k,
    decreases s.len(),
{
    if s.len() > 0 {
        lemma_map_of_contains(s.drop_last(), k);
        if s.last().0 == k {
            assert(s[s.len() - 1].0 == k);
        } else {
            if exists|i: int| 0 <= i < s.len() && s[i].0 == k {
                let i = choose|i: int| 0 <= i < s.len() && s[i].0 == k;
                assert(s.drop_last()[i].0 == k);
            }
        }
    }
}

proof fn lemma_uniq_drop_last(s: Seq<(u64, u128)>)
    requires
        uniq_keys(s),
        s.len() > 0,
    ensures
        uniq_keys(s.drop_last()),
{
    assert forall|i: int, j: int| 0 <= i < j < s.drop_last().len() implies s.drop_last()[i].0
        != s.drop_last()[j].0 by {
        assert(s[i].0 != s[j].0);
    }
}

proof fn lemma_map_of_get(s: Seq<(u64, u128)>, i: int)
    requires
        uniq_keys(s),
        0 <= i < s.len(),
    ensures
        map_of(s).contains_key(s[i].0),
        map_of(s)[s[i].0] == s[i].1,
    decreases s.len(),
{
    if i == s.len() - 1 {
    } else {
        lemma_uniq_drop_last(s);
        lemma_map_of_get(s.drop_last(), i);
        assert(s.last().0 != s[i].0);
    }
}

proof fn lemma_map_of_update(s: Seq<(u64, u128)>, i: int, v: u128)
    requires
        uniq_keys(s),
        0 <= i < s.len(),
    ensures
        uniq_keys(s.update(i, (s[i].0, v))),
        map_of(s.update(i, (s[i].0, v))) == map_of(s).insert(s[i].0, v),
    decreases s.len(),
{
    let t = s.update(i, (s[i].0, v));
    assert forall|x: int, y: int| 0 <= x < y < t.len() implies t[x].0 != t[y].0 by {
        assert(s[x].0 != s[y].0);
    }
    if i == s.len() - 1 {
        assert(t.drop_last() =~= s.drop_last());
        assert(map_of(t) =~= map_of(s).insert(s[i].0, v));
    } else {
        lemma_uniq_drop_last(s);
        lemma_map_of_update(s.drop_last(), i, v);
        assert(t.drop_last() =~= s.drop_last().update(i, (s[i].0, v)));
        assert(s.last().0 != s[i].0);
        assert(map_of(t) =~= map_of(s).insert(s[i].0, v));
    }
}

proof fn lemma_map_of_push(s: Seq<(u64, u128)>, k: u64, v: u128)
    requires
        uniq_keys(s),
        !map_of(s).contains_key(k),
    ensures
        uniq_keys(s.push((k, v))),
        map_of(s.push((k, v))) == map_of(s).insert(k, v),
        sum_of(s.push((k, v))) == sum_of(s) + v,
{
    lemma_map_of_contains(s, k);
    let t = s.push((k, v));
    assert forall|x: int, y: int| 0 <= x < y < t.len() implies t[x].0 != t[y].0 by {
        if y < s.len() {
            assert(s[x].0 != s[y].0);
        } else {
            assert(t[x] == s[x]);
        }
    }
    assert(t.drop_last() =~= s);
    assert(map_of(t) == map_of(s).insert(k, v));
}

proof fn lemma_sum_nonneg(s: Seq<(u64, u128)>)
    ensures
        sum_of(s) >= 0,
    decreases s.len(),
{
    if s.len() > 0 {
        lemma_sum_nonneg(s.drop_last());
    }
}

proof fn lemma_sum_update(s: Seq<(u64, u128)>, i: int, v: u128)
    requires
        0 <= i < s.len(),
    ensures
        sum_of(s.update(i, (s[i].0, v))) == sum_of(s) - s[i].1 + v,
    decreases s.len(),
{
    let t = s.update(i, (s[i].0, v));
    if i == s.len() - 1 {
        assert(t.drop_last() =~= s.drop_last());
    } else {
        lemma_sum_update(s.drop_last(), i, v);
        assert(t.drop_last() =~= s.drop_last().update(i, (s[i].0, v)));
    }
}

proof fn lemma_sum_elem(s: Seq<(u64, u128)>, i: int)
    requires
        0 <= i < s.len(),
    ensures
        s[i].1 <= sum_of(s),
    decreases s.len(),
{
    if i == s.len() - 1 {
        lemma_sum_nonneg(s.drop_last());
    } else {
        lemma_sum_elem(s.drop_last(), i);
    }
}

proof fn lemma_sum_two(s: Seq<(u64, u128)>, i: int, j: int)
    requires
        0 <= i < s.len(),
        0 <= j < s.len(),
        i != j,
    ensures
        s[i].1 + s[j].1 <= sum_of(s),
    decreases s.len(),
{
    if j == s.len() - 1 {
        lemma_sum_elem(s.drop_last(), i);
    } else if i == s.len() - 1 {
        lemma_sum_elem(s.drop_last(), j);
    } else {
        lemma_sum_two(s.drop_last(), i, j);
    }
}

/// Account balances for one fungible unit, keyed by account identifier.
pub struct BalanceMap {
    entries: Vec<(u64, u128)>,
}

impl View for BalanceMap {
    type V = Map<u64, u128>;

    closed spec fn view(&self) -> Map<u64, u128> {
        map_of(self.entries@)
    }
}

impl BalanceMap {
    /// Keys are unique, so the map view is faithful.
    pub closed spec fn wf(self) -> bool {
        uniq_keys(self.entries@)
    }

    /// The sum of all balances held in the store.
    pub closed spec fn total(self) -> int {
        sum_of(self.entries@)
    }

    /// An empty store.
    pub fn new() -> (r: BalanceMap)
        ensures
            r.wf(),
            r@ == Map::<u64, u128>::empty(),
            r.total() == 0,
    {
        BalanceMap { entries: Vec::new() }
    }

    /// The balance of `k`; zero for an account never seen.
    pub fn get(&self, k: u64) -> (r: u128)
        requires
            self.wf(),
        ensures
            r == balance_in(self@, k),
    {
        let n = self.entries.len();
        let mut i: usize = 0;
        while i < n
            invariant
                n == self.entries@.len(),
                self.wf(),
                forall|j: int| 0 <= j < i ==> self.entries@[j].0 != k,
            decreases n - i,
        {
            if self.entries[i].0 == k {
                proof {
                    lemma_map_of_get(self.entries@, i as int);
                }
                return self.entries[i].1;
            }
            i += 1;
        }
        proof {
            lemma_map_of_contains(self.entries@, k);
        }
        0
    }

    /// Sets the balance of `k` to `v`.
    pub fn set(&mut self, k: u64, v: u128)
        requires
            old(self).wf(),
        ensures
            final(self).wf(),
            final(self)@ == old(self)@.insert(k, v),
            final(self).total() == old(self).total() - balance_in(old(self)@, k) + v,
    {
        let n = self.entries.len();
        let mut i: usize = 0;
        while i < n
            invariant
                n == self.entries@.len(),
                self.wf(),
                self.entries@ == old(self).entries@,
                forall|j: int| 0 <= j < i ==> self.entries@[j].0 != k,
            decreases n - i,
        {
            if self.entries[i].0 == k {
                proof {
                    lemma_map_of_get(self.entries@, i as int);
                    lemma_map_of_update(self.entries@, i as int, v);
                    lemma_sum_update(self.entries@, i as int, v);
                }
                self.entries[i] = (k, v);
                return ;
            }
            i += 1;
        }
        proof {
            lemma_map_of_contains(self.entries@, k);
            lemma_map_of_push(self.entries@, k, v);
        }
        self.entries.push((k, v));
    }

    /// No single balance exceeds the total.
    pub proof fn lemma_balance_le_total(&self, k: u64)
        requires
            self.wf(),
        ensures
            balance_in(self@, k) <= self.total(),
            self.total() >= 0,
    {
        lemma_sum_nonneg(self.entries@);
        lemma_map_of_contains(self.entries@, k);
        if self@.contains_key(k) {
            let i = choose|i: int| 0 <= i < self.entries@.len() && self.entries@[i].0 == k;
            lemma_map_of_get(self.entries@, i);
            lemma_sum_elem(self.entries@, i);
        }
    }

    /// Two distinct balances together never exceed the total.
    pub proof fn lemma_balances_le_total(&self, k1: u64, k2: u64)
        requires
            self.wf(),
            k1 != k2,
        ensures
            balance_in(self@, k1) + balance_in(self@, k2) <= self.total(),
    {
        lemma_map_of_contains(self.entries@, k1);
        lemma_map_of_contains(self.entries@, k2);
        self.lemma_balance_le_total(k1);
        self.lemma_balance_le_total(k2);
        if self@.contains_key(k1) && self@.contains_key(k2) {
            let i = choose|i: int| 0 <= i < self.entries@.len() && self.entries@[i].0 == k1;
            let j = choose|j: int| 0 <= j < self.entries@.len() && self.entries@[j].0 == k2;
            lemma_map_of_get(self.entries@, i);
            lemma_map_of_get(self.entries@, j);
            lemma_sum_two(self.entries@, i, j);
        }
    }
}

} // verus!
