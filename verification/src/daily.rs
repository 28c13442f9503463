//! Per-calendar-day aggregation of a batch of contract records: one
//! aggregate row per distinct day bucket, counters summed over the
//! batch's records for that day.

use vstd::prelude::*;

use crate::records::{ContractEvents, DailyStats, DailyStatsView, UsageView};

verus! {

/// Index of the row for `day`, or -1 when absent (first match).
pub open spec fn find_day(s: Seq<DailyStatsView>, day: int) -> int
    decreases s.len(),
{
    if s.len() == 0 {
        -1
    } else if s[0].day_timestamp == day {
        0
    } else {
        let r = find_day(s.drop_first(), day);
        if r < 0 {
            -1
        } else {
            r + 1
        }
    }
}

/// The aggregate row a single record starts for its day.
pub open spec fn new_day(c: UsageView) -> DailyStatsView {
    DailyStatsView {
        day_timestamp: c.day_timestamp,
        active_contracts: 1,
        new_contracts: if c.is_new_contract {
            1int
        } else {
            0int
        },
        total_calls: c.total_calls,
        unique_wallets: c.unique_wallets,
    }
}

/// One more record of the same day folded into an aggregate row.
pub open spec fn add_day(d: DailyStatsView, c: UsageView) -> DailyStatsView {
    DailyStatsView {
        day_timestamp: d.day_timestamp,
        active_contracts: d.active_contracts + 1,
        new_contracts: d.new_contracts + if c.is_new_contract {
            1int
        } else {
            0int
        },
        total_calls: d.total_calls + c.total_calls,
        unique_wallets: d.unique_wallets + c.unique_wallets,
    }
}

/// One record folded into the aggregate rows: it joins its day's row,
/// or starts a new one.
pub open spec fn daily_step(s: Seq<DailyStatsView>, c: UsageView) -> Seq<DailyStatsView> {
    let i = find_day(s, c.day_timestamp);
    if i >= 0 {
        s.update(i, add_day(s[i], c))
    } else {
        s.push(new_day(c))
    }
}

/// The aggregate rows of a batch, one per distinct day bucket, in
/// order of first occurrence.
pub open spec fn daily_spec(cs: Seq<UsageView>) -> Seq<DailyStatsView>
    decreases cs.len(),
{
    if cs.len() == 0 {
        Seq::empty()
    } else {
        daily_step(daily_spec(cs.drop_last()), cs.last())
    }
}

/// Counters of every record are nonnegative; true of any batch of
/// actual records, whose counters are unsigned.
pub open spec fn nonneg_batch(cs: Seq<UsageView>) -> bool {
    forall|k: int|
        0 <= k < cs.len() ==> #[trigger] cs[k].total_calls >= 0 && cs[k].unique_wallets >= 0
}

/// The summed counters of every aggregate row fit an unsigned counter.
pub open spec fn daily_sums_fit(cs: Seq<UsageView>) -> bool {
    forall|k: int|
        0 <= k < daily_spec(cs).len() ==> #[trigger] daily_spec(cs)[k].total_calls <= u64::MAX
            && daily_spec(cs)[k].unique_wallets <= u64::MAX
}

/// How `find_day` relates to the rows: it returns the first index
/// whose day matches, or -1 when none does.
pub proof fn lemma_find_day_props(s: Seq<DailyStatsView>, day: int)
    ensures
        find_day(s, day) == -1 <==> (forall|k: int|
            0 <= k < s.len() ==> s[k].day_timestamp != day),
        find_day(s, day) != -1 ==> {
            let i = find_day(s, day);
            &&& 0 <= i < s.len()
            &&& s[i].day_timestamp == day
            &&& forall|k: int| 0 <= k < i ==> s[k].day_timestamp != day
        },
    decreases s.len(),
{
    if s.len() > 0 && s[0].day_timestamp != day {
        let t = s.drop_first();
        lemma_find_day_props(t, day);
        assert(forall|k: int| 0 <= k < t.len() ==> t[k] == s[k + 1]);
        let r = find_day(t, day);
        if r < 0 {
            assert forall|k: int| 0 <= k < s.len() implies s[k].day_timestamp != day by {
                if k > 0 {
                    assert(s[k] == t[k - 1]);
                }
            }
        } else {
            assert(s[r + 1] == t[r]);
            assert forall|k: int| 0 <= k < r + 1 implies s[k].day_timestamp != day by {
                if k > 0 {
                    assert(s[k] == t[k - 1]);
                }
            }
        }
    }
}

/// Bounds on the aggregate rows of a batch with nonnegative counters:
/// the contract counts are bounded by the batch size, and every
/// counter is nonnegative.
pub proof fn lemma_daily_wf(cs: Seq<UsageView>)
    requires
        nonneg_batch(cs),
    ensures
        forall|k: int|
            0 <= k < daily_spec(cs).len() ==> {
                let d = #[trigger] daily_spec(cs)[k];
                &&& 1 <= d.active_contracts <= cs.len()
                &&& 0 <= d.new_contracts <= d.active_contracts
                &&& 0 <= d.total_calls
                &&& 0 <= d.unique_wallets
            },
    decreases cs.len(),
{
    if cs.len() > 0 {
        assert(nonneg_batch(cs.drop_last())) by {
            assert(forall|k: int|
                0 <= k < cs.len() - 1 ==> cs.drop_last()[k] == cs[k]);
        }
        lemma_daily_wf(cs.drop_last());
        let prev = daily_spec(cs.drop_last());
        let c = cs.last();
        let i = find_day(prev, c.day_timestamp);
        if i >= 0 {
            lemma_find_day_props(prev, c.day_timestamp);
        }
    }
}

/// Monotonicity of aggregation along the batch: the rows for a prefix
/// are a prefix of the rows for the whole batch, day for day, with
/// counters no larger.
pub proof fn lemma_daily_prefix(cs: Seq<UsageView>, j: int)
    requires
        0 <= j <= cs.len(),
        nonneg_batch(cs),
    ensures
        daily_spec(cs.take(j)).len() <= daily_spec(cs).len(),
        forall|k: int|
            0 <= k < daily_spec(cs.take(j)).len() ==> {
                let p = #[trigger] daily_spec(cs.take(j))[k];
                let f = daily_spec(cs)[k];
                &&& p.day_timestamp == f.day_timestamp
                &&& p.active_contracts <= f.active_contracts
                &&& p.new_contracts <= f.new_contracts
                &&& p.total_calls <= f.total_calls
                &&& p.unique_wallets <= f.unique_wallets
            },
    decreases cs.len() - j,
{
    if j == cs.len() {
        assert(cs.take(j) =~= cs);
    } else {
        lemma_daily_prefix(cs, j + 1);
        let p = daily_spec(cs.take(j));
        let q = daily_spec(cs.take(j + 1));
        assert(cs.take(j + 1).drop_last() =~= cs.take(j));
        assert(cs.take(j + 1).last() == cs[j]);
        assert(q == daily_step(p, cs[j]));
        let c = cs[j];
        let i = find_day(p, c.day_timestamp);
        if i >= 0 {
            lemma_find_day_props(p, c.day_timestamp);
        }
        assert(p.len() <= q.len());
        assert(c.total_calls >= 0 && c.unique_wallets >= 0);
        let f = daily_spec(cs);
        assert forall|k: int| 0 <= k < p.len() implies {
            &&& p[k].day_timestamp == f[k].day_timestamp
            &&& p[k].active_contracts <= f[k].active_contracts
            &&& p[k].new_contracts <= f[k].new_contracts
            &&& p[k].total_calls <= f[k].total_calls
            &&& p[k].unique_wallets <= f[k].unique_wallets
        } by {
            if i >= 0 && k == i {
                assert(q[k] == add_day(p[k], c));
            } else {
                assert(q[k] == p[k]);
            }
            assert(q[k].day_timestamp == f[k].day_timestamp);
            assert(q[k].total_calls <= f[k].total_calls);
        }
    }
}

/// Sums the batch's records into one aggregate row per distinct day.
pub fn aggregate_daily(contracts: &ContractEvents) -> (stats: Vec<DailyStats>)
    requires
        daily_sums_fit(contracts@),
    ensures
        stats@.map_values(|d: DailyStats| d@) == daily_spec(contracts@),
{
    let ghost batch = contracts@;
    proof {
        assert forall|k: int| 0 <= k < batch.len() implies #[trigger] batch[k].total_calls >= 0
            && batch[k].unique_wallets >= 0 by {
            assert(batch[k] == contracts.contracts@[k]@);
        }
    }
    let mut stats: Vec<DailyStats> = Vec::new();
    let n = contracts.contracts.len();
    let mut i: usize = 0;
    proof {
        assert(stats@.map_values(|d: DailyStats| d@) =~= daily_spec(batch.take(0)));
    }
    while i < n
        invariant
            n == contracts.contracts.len(),
            batch == contracts@,
            nonneg_batch(batch),
            daily_sums_fit(batch),
            i <= n,
            stats@.map_values(|d: DailyStats| d@) == daily_spec(batch.take(i as int)),
        decreases n - i,
    {
        let ghost prev = daily_spec(batch.take(i as int));
        let c = &contracts.contracts[i];
        proof {
            assert(batch[i as int] == c@);
            assert(batch.take(i as int + 1).drop_last() =~= batch.take(i as int));
            assert(batch.take(i as int + 1).last() == batch[i as int]);
            assert(daily_spec(batch.take(i as int + 1)) == daily_step(prev, batch[i as int]));
            lemma_daily_wf(batch.take(i as int));
            lemma_daily_prefix(batch, i as int + 1);
            assert(batch.take(i as int).len() == i);
        }
        let mut j: usize = 0;
        let m = stats.len();
        let mut found: bool = false;
        while j < m && !found
            invariant
                j <= m,
                m == stats.len(),
                stats@.map_values(|d: DailyStats| d@) == prev,
                forall|k: int| 0 <= k < j ==> prev[k].day_timestamp != c@.day_timestamp,
                found ==> j < m && prev[j as int].day_timestamp == c@.day_timestamp,
                batch == contracts@,
                i < n,
                c@ == batch[i as int],
            decreases m - j + (if found { 0int } else { 1int }),
        {
            if stats[j].day_timestamp == c.day_timestamp {
                found = true;
            } else {
                proof {
                    assert(prev[j as int] == stats@.map_values(|d: DailyStats| d@)[j as int]);
                }
                j += 1;
            }
        }
        if found {
            proof {
                let fi = find_day(prev, c@.day_timestamp);
                lemma_find_day_props(prev, c@.day_timestamp);
                assert(fi != -1);
                if 0 <= fi < j as int {
                    assert(prev[fi].day_timestamp != c@.day_timestamp);
                }
                if fi > j as int {
                    assert(prev[j as int].day_timestamp != c@.day_timestamp);
                }
                assert(fi == j as int);
            }
            let ghost s0 = stats@;
            let ghost target = add_day(prev[j as int], batch[i as int]);
            let mut d = stats.remove(j);
            proof {
                assert(d@ == prev[j as int]);
                assert(1 <= d.active_contracts <= i);
                assert(d.new_contracts <= d.active_contracts);
                assert(daily_spec(batch.take(i as int + 1))[j as int] == target);
                assert(target.total_calls <= daily_spec(batch)[j as int].total_calls);
                assert(target.unique_wallets <= daily_spec(batch)[j as int].unique_wallets);
                assert(target.total_calls <= u64::MAX);
                assert(target.unique_wallets <= u64::MAX);
                assert(i < n <= usize::MAX <= u64::MAX);
            }
            d.active_contracts = d.active_contracts + 1;
            if c.is_new_contract {
                d.new_contracts = d.new_contracts + 1;
            }
            d.total_calls = d.total_calls + c.total_calls;
            d.unique_wallets = d.unique_wallets + c.unique_wallets;
            proof {
                assert(d@ == target);
            }
            let ghost gd = d;
            stats.insert(j, d);
            proof {
                assert(stats@ =~= s0.update(j as int, gd));
                assert(stats@.map_values(|x: DailyStats| x@).len() == prev.len());
                assert(stats@.map_values(|x: DailyStats| x@) =~~= prev.update(
                    j as int,
                    target,
                ));
            }
        } else {
            let ghost s0 = stats@;
            let ghost target = new_day(batch[i as int]);
            let d = DailyStats {
                day_timestamp: c.day_timestamp,
                active_contracts: 1,
                new_contracts: if c.is_new_contract {
                    1
                } else {
                    0
                },
                total_calls: c.total_calls,
                unique_wallets: c.unique_wallets,
            };
            proof {
                lemma_find_day_props(prev, c@.day_timestamp);
                if find_day(prev, c@.day_timestamp) != -1 {
                    let fi = find_day(prev, c@.day_timestamp);
                    assert(prev[fi].day_timestamp == c@.day_timestamp);
                }
                assert(find_day(prev, c@.day_timestamp) == -1);
                assert(d@ == target);
            }
            let ghost gd = d;
            stats.push(d);
            proof {
                assert(stats@ =~= s0.push(gd));
                assert(stats@.map_values(|x: DailyStats| x@).len() == prev.len() + 1);
                assert(stats@.map_values(|x: DailyStats| x@) =~~= prev.push(target));
            }
        }
        i += 1;
    }
    proof {
        assert(batch.take(n as int) =~= batch);
    }
    stats
}

} // verus!
