//! Keyed persisted stores and the merge of a block's batch into them.
//!
//! Writes follow a replace policy: each write discards the prior value
//! at its key, so a stored value always reflects only the most recent
//! batch that touched that key.

use vstd::prelude::*;

use crate::daily::{aggregate_daily, daily_spec, daily_sums_fit};
use crate::records::{ContractEvents, ContractUsage, DailyStats, DailyStatsView, UsageView};
use crate::text::{dec_chars, u64_to_dec};

verus! {

/// Last-match lookup in an association sequence. Keys are unique in a
/// well-formed store, so the last match is the only one.
pub open spec fn assoc_get<V: View>(s: Seq<(String, V)>, k: Seq<char>) -> Option<V::V>
    decreases s.len(),
{
    if s.len() == 0 {
        Option::None
    } else if s.last().0@ == k {
        Option::Some(s.last().1@)
    } else {
        assoc_get(s.drop_last(), k)
    }
}

/// A keyed store of records, a model of the host's persisted key/value
/// state: string keys, replace-on-write.
pub struct KeyedStore<V> {
    entries: Vec<(String, V)>,
}

impl<V: View> KeyedStore<V> {
    /// Keys are pairwise distinct.
    pub closed spec fn wf(&self) -> bool {
        forall|i: int, j: int|
            0 <= i < j < self.entries@.len() ==> self.entries@[i].0@ != self.entries@[j].0@
    }
}

impl<V: View> View for KeyedStore<V> {
    type V = Map<Seq<char>, V::V>;

    closed spec fn view(&self) -> Map<Seq<char>, V::V> {
        Map::new(
            |k: Seq<char>| assoc_get(self.entries@, k) is Some,
            |k: Seq<char>| assoc_get(self.entries@, k).unwrap(),
        )
    }
}

proof fn lemma_assoc_get_remove<V: View>(s: Seq<(String, V)>, j: int, k: Seq<char>)
    requires
        0 <= j < s.len(),
        k != s[j].0@,
    ensures
        assoc_get(s.remove(j), k) == assoc_get(s, k),
    decreases s.len(),
{
    if j == s.len() - 1 {
        assert(s.remove(j) =~= s.drop_last());
    } else {
        let t = s.remove(j);
        assert(t.last() == s.last());
        if s.last().0@ != k {
            assert(t.drop_last() =~= s.drop_last().remove(j));
            lemma_assoc_get_remove(s.drop_last(), j, k);
        }
    }
}

proof fn lemma_assoc_get_found<V: View>(s: Seq<(String, V)>, j: int)
    requires
        0 <= j < s.len(),
        forall|i: int, i2: int| 0 <= i < i2 < s.len() ==> s[i].0@ != s[i2].0@,
    ensures
        assoc_get(s, s[j].0@) == Option::Some(s[j].1@),
    decreases s.len(),
{
    if j == s.len() - 1 {
    } else {
        assert(s.last().0@ != s[j].0@);
        assert(s.drop_last()[j] == s[j]);
        lemma_assoc_get_found(s.drop_last(), j);
    }
}

proof fn lemma_assoc_get_absent<V: View>(s: Seq<(String, V)>, k: Seq<char>)
    requires
        forall|i: int| 0 <= i < s.len() ==> s[i].0@ != k,
    ensures
        assoc_get(s, k) is None,
    decreases s.len(),
{
    if s.len() > 0 {
        lemma_assoc_get_absent(s.drop_last(), k);
    }
}

impl<V: View> KeyedStore<V> {
    /// An empty store.
    pub fn new() -> (r: KeyedStore<V>)
        ensures
            r.wf(),
            r@ == Map::<Seq<char>, V::V>::empty(),
    {
        let r = KeyedStore { entries: Vec::new() };
        proof {
            assert(r@ =~= Map::<Seq<char>, V::V>::empty());
        }
        r
    }

    /// Writes `value` at `key`, replacing any prior value there and
    /// leaving every other key untouched.
    pub fn set(&mut self, key: String, value: V)
        requires
            old(self).wf(),
        ensures
            final(self).wf(),
            final(self)@ == old(self)@.insert(key@, value@),
    {
        let ghost s0 = self.entries@;
        let mut j: usize = 0;
        let n = self.entries.len();
        let mut found: bool = false;
        while j < n && !found
            invariant
                j <= n,
                n == self.entries.len(),
                self.entries@ == s0,
                !found ==> forall|k: int| 0 <= k < j ==> s0[k].0@ != key@,
                found ==> j < n && s0[j as int].0@ == key@,
            decreases n - j + (if found { 0int } else { 1int }),
        {
            if self.entries[j].0 == key {
                found = true;
            } else {
                j += 1;
            }
        }
        if found {
            let _old_pair = self.entries.remove(j);
            self.entries.push((key, value));
            proof {
                let s1 = self.entries@;
                let ghost removed = s0.remove(j as int);
                assert(s1.drop_last() =~= removed);
                assert forall|k: Seq<char>| true implies #[trigger] assoc_get(s1, k) == (
                    if k == s1.last().0@ {
                        Option::Some(s1.last().1@)
                    } else {
                        assoc_get(s0, k)
                    }
                ) by {
                    if k != s1.last().0@ {
                        assert(k != s0[j as int].0@);
                        lemma_assoc_get_remove(s0, j as int, k);
                    }
                }
                assert(self@ =~= old(self)@.insert(key@, value@));
                assert forall|i: int, i2: int|
                    0 <= i < i2 < s1.len() implies s1[i].0@ != s1[i2].0@ by {
                    if i2 < s1.len() - 1 {
                        assert(s1[i] == removed[i] && s1[i2] == removed[i2]);
                    } else if i < s1.len() - 1 {
                        assert(s1[i] == removed[i]);
                    }
                }
            }
        } else {
            self.entries.push((key, value));
            proof {
                let s1 = self.entries@;
                assert(s1.drop_last() =~= s0);
                assert(self@ =~= old(self)@.insert(key@, value@));
            }
        }
    }

    /// The stored value at `key`, if any.
    pub fn get(&self, key: &String) -> (r: Option<&V>)
        requires
            self.wf(),
        ensures
            match r {
                Option::Some(v) => self@.contains_key(key@) && v@ == self@[key@],
                Option::None => !self@.contains_key(key@),
            },
    {
        let mut j: usize = 0;
        let n = self.entries.len();
        while j < n
            invariant
                j <= n,
                n == self.entries.len(),
                self.wf(),
                forall|k: int| 0 <= k < j ==> self.entries@[k].0@ != key@,
            decreases n - j,
        {
            if self.entries[j].0 == *key {
                proof {
                    lemma_assoc_get_found(self.entries@, j as int);
                }
                return Some(&self.entries[j].1);
            }
            j += 1;
        }
        proof {
            lemma_assoc_get_absent(self.entries@, key@);
        }
        None
    }
}

/// Replace policy of the keyed store, as seen through two writes:
/// writing a record at a key and then a second record at the same key
/// leaves the store exactly as a single write of the second record
/// would, with the second record as the stored value; no other key is
/// affected. This is what [`KeyedStore::set`] ensures, stated over the
/// store's map value.
pub proof fn lemma_store_replace<T>(m: Map<Seq<char>, T>, k: Seq<char>, r1: T, r2: T)
    ensures
        m.insert(k, r1).insert(k, r2) == m.insert(k, r2),
        m.insert(k, r1).insert(k, r2)[k] == r2,
        forall|k2: Seq<char>| k2 != k && m.contains_key(k2) ==> m.insert(k, r1).insert(
            k,
            r2,
        )[k2] == m[k2],
{
    assert(m.insert(k, r1).insert(k, r2) =~= m.insert(k, r2));
}

/// The persisted key for one contract's usage record.
pub open spec fn contract_key_chars(addr: Seq<char>) -> Seq<char> {
    "contract_usage:"@ + addr
}

/// Builds the persisted key for a contract address.
pub fn contract_key(addr: &String) -> (k: String)
    ensures
        k@ == contract_key_chars(addr@),
{
    let mut k = String::from_str("contract_usage:");
    k.append(addr.as_str());
    k
}

/// The persisted key for one day bucket's aggregate record.
pub open spec fn daily_key_chars(day: int) -> Seq<char> {
    "daily_contract_stats:"@ + dec_chars(day)
}

/// Builds the persisted key for a day bucket.
pub fn daily_key(day: u64) -> (k: String)
    ensures
        k@ == daily_key_chars(day as int),
{
    let mut k = String::from_str("daily_contract_stats:");
    let d = u64_to_dec(day);
    k.append(d.as_str());
    k
}

/// The store contents after writing every record of `batch` at its
/// contract key, in batch order, each write replacing the prior value.
pub open spec fn contract_updates(
    m: Map<Seq<char>, UsageView>,
    batch: Seq<UsageView>,
) -> Map<Seq<char>, UsageView>
    decreases batch.len(),
{
    if batch.len() == 0 {
        m
    } else {
        contract_updates(m, batch.drop_last()).insert(
            contract_key_chars(batch.last().address),
            batch.last(),
        )
    }
}

/// Writes each record of the batch at `contract_usage:` + address,
/// replacing whatever the store held there.
pub fn store_contract_stats(contracts: &ContractEvents, store: &mut KeyedStore<ContractUsage>)
    requires
        old(store).wf(),
    ensures
        final(store).wf(),
        final(store)@ == contract_updates(old(store)@, contracts@),
{
    let ghost batch = contracts@;
    let n = contracts.contracts.len();
    let mut i: usize = 0;
    proof {
        assert(batch.take(0) =~= Seq::<UsageView>::empty());
    }
    while i < n
        invariant
            n == contracts.contracts.len(),
            batch == contracts@,
            i <= n,
            store.wf(),
            store@ == contract_updates(old(store)@, batch.take(i as int)),
        decreases n - i,
    {
        let c = &contracts.contracts[i];
        proof {
            assert(batch[i as int] == c@);
        }
        let key = contract_key(&c.address);
        let value = c.duplicate();
        store.set(key, value);
        proof {
            assert(batch.take(i as int + 1).drop_last() =~= batch.take(i as int));
            assert(batch.take(i as int + 1).last() == batch[i as int]);
        }
        i += 1;
    }
    proof {
        assert(batch.take(n as int) =~= batch);
    }
}

/// The store contents after writing every aggregate row of `ds` at its
/// day key, in order, each write replacing the prior value.
pub open spec fn daily_updates(
    m: Map<Seq<char>, DailyStatsView>,
    ds: Seq<DailyStatsView>,
) -> Map<Seq<char>, DailyStatsView>
    decreases ds.len(),
{
    if ds.len() == 0 {
        m
    } else {
        daily_updates(m, ds.drop_last()).insert(
            daily_key_chars(ds.last().day_timestamp),
            ds.last(),
        )
    }
}

/// Aggregates the batch per day and writes each aggregate row at
/// `daily_contract_stats:` + day, replacing whatever the store held
/// there: the stored value for a day reflects only this batch.
pub fn store_daily_stats(contracts: &ContractEvents, store: &mut KeyedStore<DailyStats>)
    requires
        old(store).wf(),
        daily_sums_fit(contracts@),
    ensures
        final(store).wf(),
        final(store)@ == daily_updates(old(store)@, daily_spec(contracts@)),
{
    let stats = aggregate_daily(contracts);
    let ghost ds = daily_spec(contracts@);
    let n = stats.len();
    let mut i: usize = 0;
    proof {
        assert(ds.take(0) =~= Seq::<DailyStatsView>::empty());
    }
    while i < n
        invariant
            n == stats.len(),
            stats@.map_values(|d: DailyStats| d@) == ds,
            i <= n,
            store.wf(),
            store@ == daily_updates(old(store)@, ds.take(i as int)),
        decreases n - i,
    {
        let d = stats[i];
        proof {
            assert(ds[i as int] == d@);
        }
        let key = daily_key(d.day_timestamp);
        store.set(key, d);
        proof {
            assert(ds.take(i as int + 1).drop_last() =~= ds.take(i as int));
            assert(ds.take(i as int + 1).last() == ds[i as int]);
        }
        i += 1;
    }
    proof {
        assert(ds.take(n as int) =~= ds);
    }
}

} // verus!

