//! Block-local extraction: one block in, a bounded batch of per-contract
//! usage records out. Pure and total: a block without a timestamp yields
//! an empty batch, never an error.

use vstd::prelude::*;

use crate::hexenc::{addr_chars, address_string};
use crate::records::{ContractEvents, ContractUsage, UsageView};

verus! {

/// Blocks within this distance of a contract's first interaction keep it
/// flagged as new.
pub const NEW_CONTRACT_WINDOW: u64 = 1000;

/// Minimum gas for a transaction to count as a contract invocation (the
/// cost of a plain value transfer).
pub const MIN_GAS_USED: u64 = 21000;

/// Cap on distinct contracts tracked per block.
pub const MAX_CONTRACTS_PER_BLOCK: usize = 1000;

/// Cap on wallet addresses stored per contract record.
pub const MAX_WALLETS_PER_CONTRACT: usize = 100;

/// One executed transaction, as the extractor needs it: destination and
/// source address bytes, execution status code, and gas consumed.
pub struct TxTrace {
    pub to: Vec<u8>,
    pub from: Vec<u8>,
    pub status: i32,
    pub gas_used: u64,
}

/// Mathematical value of a [`TxTrace`].
pub ghost struct TxView {
    pub to: Seq<u8>,
    pub from: Seq<u8>,
    pub status: i32,
    pub gas_used: u64,
}

impl View for TxTrace {
    type V = TxView;

    open spec fn view(&self) -> TxView {
        TxView { to: self.to@, from: self.from@, status: self.status, gas_used: self.gas_used }
    }
}

/// One block, as the extractor needs it: the header timestamp (absent on
/// malformed blocks), the height, and the ordered transaction traces.
pub struct BlockInput {
    pub timestamp_seconds: Option<u64>,
    pub number: u64,
    pub transaction_traces: Vec<TxTrace>,
}

/// Mathematical value of a [`BlockInput`].
pub ghost struct BlockView {
    pub timestamp_seconds: Option<u64>,
    pub number: u64,
    pub transaction_traces: Seq<TxView>,
}

impl View for BlockInput {
    type V = BlockView;

    open spec fn view(&self) -> BlockView {
        BlockView {
            timestamp_seconds: self.timestamp_seconds,
            number: self.number,
            transaction_traces: self.transaction_traces@.map_values(|t: TxTrace| t@),
        }
    }
}

/// A transaction is admitted when it has a destination, succeeded, and
/// consumed at least the minimum gas.
pub open spec fn admitted(tx: TxView) -> bool {
    tx.to.len() > 0 && tx.status == 1 && tx.gas_used >= MIN_GAS_USED
}

/// The start of the 86400-second day bucket holding `ts`.
pub open spec fn day_bucket(ts: int) -> int {
    (ts / 86400) * 86400
}

/// One contract's working state during extraction: the record being
/// built, plus every distinct caller seen (the record's stored wallet
/// list stops growing at the cap; this sequence does not).
pub ghost struct EntrySpec {
    pub usage: UsageView,
    pub seen_wallets: Seq<Seq<char>>,
}

/// The stored wallet list: the distinct callers in insertion order,
/// truncated at the cap.
pub open spec fn capped_wallets(seen: Seq<Seq<char>>) -> Seq<Seq<char>> {
    if seen.len() <= MAX_WALLETS_PER_CONTRACT {
        seen
    } else {
        seen.take(MAX_WALLETS_PER_CONTRACT as int)
    }
}

/// Index of the entry for `addr`, or -1 when absent (first match).
pub open spec fn find_entry(s: Seq<EntrySpec>, addr: Seq<char>) -> int
    decreases s.len(),
{
    if s.len() == 0 {
        -1
    } else if s[0].usage.address == addr {
        0
    } else {
        let r = find_entry(s.drop_first(), addr);
        if r < 0 {
            -1
        } else {
            r + 1
        }
    }
}

/// A fresh entry for a contract first seen at `height`.
pub open spec fn blank_entry(addr: Seq<char>, height: int, day: int) -> EntrySpec {
    EntrySpec {
        usage: UsageView {
            address: addr,
            first_interaction_block: height,
            last_interaction_block: height,
            total_calls: 0,
            unique_wallets: 0,
            interacting_wallets: Seq::empty(),
            is_new_contract: true,
            day_timestamp: day,
        },
        seen_wallets: Seq::empty(),
    }
}

/// One admitted transaction applied to its contract's entry: the call
/// counter and recency fields advance, and a first-time caller is
/// recorded (appended to the stored list only while under the cap).
pub open spec fn touch_entry(e: EntrySpec, from: Seq<u8>, height: int) -> EntrySpec {
    let w = addr_chars(from);
    let u = e.usage;
    let known = e.seen_wallets.contains(w);
    EntrySpec {
        usage: UsageView {
            address: u.address,
            first_interaction_block: u.first_interaction_block,
            last_interaction_block: height,
            total_calls: u.total_calls + 1,
            unique_wallets: if known {
                u.unique_wallets
            } else {
                u.unique_wallets + 1
            },
            interacting_wallets: if !known && e.seen_wallets.len() < MAX_WALLETS_PER_CONTRACT {
                u.interacting_wallets.push(w)
            } else {
                u.interacting_wallets
            },
            is_new_contract: height <= u.first_interaction_block + NEW_CONTRACT_WINDOW,
            day_timestamp: u.day_timestamp,
        },
        seen_wallets: if known {
            e.seen_wallets
        } else {
            e.seen_wallets.push(w)
        },
    }
}

/// One transaction applied to the working state: rejected transactions
/// change nothing; a new destination address is tracked only while the
/// contract cap is not reached; known destinations accumulate normally.
pub open spec fn extract_step(s: Seq<EntrySpec>, tx: TxView, height: int, day: int) -> Seq<
    EntrySpec,
> {
    if !admitted(tx) {
        s
    } else {
        let addr = addr_chars(tx.to);
        let i = find_entry(s, addr);
        if i >= 0 {
            s.update(i, touch_entry(s[i], tx.from, height))
        } else if s.len() >= MAX_CONTRACTS_PER_BLOCK {
            s
        } else {
            s.push(touch_entry(blank_entry(addr, height, day), tx.from, height))
        }
    }
}

/// The working state after all transactions of the block, in insertion
/// order of first admitted occurrence.
pub open spec fn extract_entries(txs: Seq<TxView>, height: int, day: int) -> Seq<EntrySpec>
    decreases txs.len(),
{
    if txs.len() == 0 {
        Seq::empty()
    } else {
        extract_step(extract_entries(txs.drop_last(), height, day), txs.last(), height, day)
    }
}

/// What extraction returns for a block: nothing when the timestamp is
/// missing, else the usage records of the working state.
pub open spec fn extract_spec(b: BlockView) -> Seq<UsageView> {
    match b.timestamp_seconds {
        Option::None => Seq::empty(),
        Option::Some(ts) => extract_entries(
            b.transaction_traces,
            b.number as int,
            day_bucket(ts as int),
        ).map_values(|e: EntrySpec| e.usage),
    }
}

/// The working state a pair of parallel vectors stands for.
pub open spec fn abs_entries(us: Seq<ContractUsage>, ss: Seq<Vec<String>>) -> Seq<EntrySpec>
    recommends
        us.len() == ss.len(),
{
    Seq::new(us.len(), |k: int| EntrySpec { usage: us[k]@, seen_wallets: ss[k].deep_view() })
}

/// How `find_entry` relates to the entries: it returns the first index
/// whose address matches, or -1 when none does.
pub proof fn lemma_find_entry_props(s: Seq<EntrySpec>, addr: Seq<char>)
    ensures
        find_entry(s, addr) == -1 <==> (forall|k: int|
            0 <= k < s.len() ==> s[k].usage.address != addr),
        find_entry(s, addr) != -1 ==> {
            let i = find_entry(s, addr);
            &&& 0 <= i < s.len()
            &&& s[i].usage.address == addr
            &&& forall|k: int| 0 <= k < i ==> s[k].usage.address != addr
        },
    decreases s.len(),
{
    if s.len() > 0 && s[0].usage.address != addr {
        let t = s.drop_first();
        lemma_find_entry_props(t, addr);
        assert(forall|k: int| 0 <= k < t.len() ==> t[k] == s[k + 1]);
        let r = find_entry(t, addr);
        if r < 0 {
            assert forall|k: int| 0 <= k < s.len() implies s[k].usage.address != addr by {
                if k > 0 {
                    assert(s[k] == t[k - 1]);
                }
            }
        } else {
            assert(s[r + 1] == t[r]);
            assert forall|k: int| 0 <= k < r + 1 implies s[k].usage.address != addr by {
                if k > 0 {
                    assert(s[k] == t[k - 1]);
                }
            }
        }
    }
}

/// Structural invariants of the working state: the caller counter is the
/// length of the seen sequence, the stored list is its capped prefix,
/// every counter is bounded by the transactions processed, and the block
/// fields are those of the current block.
pub proof fn lemma_entries_wf(txs: Seq<TxView>, height: int, day: int)
    ensures
        forall|k: int|
            0 <= k < extract_entries(txs, height, day).len() ==> {
                let e = #[trigger] extract_entries(txs, height, day)[k];
                &&& e.usage.unique_wallets == e.seen_wallets.len()
                &&& e.usage.interacting_wallets == capped_wallets(e.seen_wallets)
                &&& 1 <= e.usage.total_calls <= txs.len()
                &&& e.seen_wallets.len() <= txs.len()
                &&& e.usage.first_interaction_block == height
                &&& e.usage.last_interaction_block == height
                &&& e.usage.is_new_contract
                &&& e.usage.day_timestamp == day
            },
    decreases txs.len(),
{
    if txs.len() > 0 {
        lemma_entries_wf(txs.drop_last(), height, day);
        let prev = extract_entries(txs.drop_last(), height, day);
        let tx = txs.last();
        if admitted(tx) {
            let addr = addr_chars(tx.to);
            let i = find_entry(prev, addr);
            if i >= 0 {
                lemma_find_entry_props(prev, addr);
                let e = prev[i];
                let e2 = touch_entry(e, tx.from, height);
                assert(e2.usage.interacting_wallets == capped_wallets(e2.seen_wallets)) by {
                    if !e.seen_wallets.contains(addr_chars(tx.from))
                        && e.seen_wallets.len() < MAX_WALLETS_PER_CONTRACT {
                        assert(capped_wallets(e2.seen_wallets) == capped_wallets(
                            e.seen_wallets,
                        ).push(addr_chars(tx.from)));
                    } else if !e.seen_wallets.contains(addr_chars(tx.from)) {
                        assert(e2.seen_wallets.take(MAX_WALLETS_PER_CONTRACT as int)
                            =~= e.seen_wallets.take(MAX_WALLETS_PER_CONTRACT as int));
                        assert(capped_wallets(e2.seen_wallets) == capped_wallets(e.seen_wallets));
                    }
                }
            } else if prev.len() < MAX_CONTRACTS_PER_BLOCK {
                let e = blank_entry(addr, height, day);
                let e2 = touch_entry(e, tx.from, height);
                assert(e2.seen_wallets =~= seq![addr_chars(tx.from)]);
                assert(e2.usage.interacting_wallets == capped_wallets(e2.seen_wallets));
            }
        }
    }
}

/// Whether `s` holds a string whose characters are `target`.
fn contains_string(v: &Vec<String>, s: &String) -> (r: bool)
    ensures
        r == v.deep_view().contains(s@),
{
    let mut i: usize = 0;
    while i < v.len()
        invariant
            i <= v.len(),
            forall|k: int| 0 <= k < i ==> v@[k]@ != s@,
        decreases v.len() - i,
    {
        if v[i] == *s {
            proof {
                assert(v.deep_view()[i as int] == s@);
            }
            return true;
        }
        i += 1;
    }
    proof {
        assert(forall|k: int| 0 <= k < v.deep_view().len() ==> v.deep_view()[k] != s@);
    }
    false
}

/// Index of the record whose address is `addr`, if one exists (first
/// match; addresses are in fact unique in the working state).
fn find_usage(usages: &Vec<ContractUsage>, addr: &String) -> (r: Option<usize>)
    ensures
        match r {
            Option::Some(j) => j < usages.len() && usages@[j as int].address@ == addr@
                && forall|k: int| 0 <= k < j ==> usages@[k].address@ != addr@,
            Option::None => forall|k: int|
                0 <= k < usages.len() ==> usages@[k].address@ != addr@,
        },
{
    let mut j: usize = 0;
    while j < usages.len()
        invariant
            j <= usages.len(),
            forall|k: int| 0 <= k < j ==> usages@[k].address@ != addr@,
        decreases usages.len() - j,
    {
        if usages[j].address == *addr {
            return Some(j);
        }
        j += 1;
    }
    None
}

/// Extracts the per-contract usage records of one block.
///
/// Pure and total: a block without a timestamp yields an empty batch.
/// At most [`MAX_CONTRACTS_PER_BLOCK`] distinct destination addresses
/// are tracked, in transaction order; each record caps its stored
/// wallet list at [`MAX_WALLETS_PER_CONTRACT`] while still counting
/// every distinct caller.
pub fn map_contract_usage(block: &BlockInput) -> (events: ContractEvents)
    ensures
        events@ == extract_spec(block@),
{
    let ts: u64 = match block.timestamp_seconds {
        Some(t) => t,
        None => {
            let events = ContractEvents { contracts: Vec::new() };
            proof {
                assert(events@ =~= Seq::<UsageView>::empty());
            }
            return events;
        },
    };
    proof {
        assert((ts / 86400) * 86400 <= ts) by (nonlinear_arith);
    }
    let day: u64 = (ts / 86400) * 86400;
    let height: u64 = block.number;
    let ghost txs = block.transaction_traces@.map_values(|t: TxTrace| t@);
    let ghost gh = height as int;
    let ghost gd = day as int;

    let mut usages: Vec<ContractUsage> = Vec::new();
    let mut seens: Vec<Vec<String>> = Vec::new();
    let n = block.transaction_traces.len();
    let mut idx: usize = 0;
    proof {
        assert(abs_entries(usages@, seens@) =~= extract_entries(txs.take(0), gh, gd));
    }
    while idx < n
        invariant
            n == txs.len(),
            n == block.transaction_traces.len(),
            txs == block.transaction_traces@.map_values(|t: TxTrace| t@),
            idx <= n,
            usages.len() == seens.len(),
            abs_entries(usages@, seens@) == extract_entries(txs.take(idx as int), gh, gd),
            gh == height as int,
            gd == day as int,
        decreases n - idx,
    {
        let ghost prev = extract_entries(txs.take(idx as int), gh, gd);
        let tx = &block.transaction_traces[idx];
        proof {
            assert(txs[idx as int] == tx@);
            lemma_entries_wf(txs.take(idx as int), gh, gd);
            assert(txs.take(idx as int).len() == idx);
        }
        if tx.to.len() > 0 && tx.status == 1 && tx.gas_used >= MIN_GAS_USED {
            let addr = address_string(&tx.to);
            let waddr = address_string(&tx.from);
            proof {
                lemma_find_entry_props(prev, addr@);
            }
            proof {
                assert(forall|k: int|
                    0 <= k < prev.len() ==> #[trigger] prev[k].usage == usages@[k]@);
            }
            match find_usage(&usages, &addr) {
                Some(j) => {
                    proof {
                        let i = find_entry(prev, addr@);
                        assert(prev[j as int].usage.address == addr@);
                        assert(i != -1);
                        if 0 <= i < j as int {
                            assert(usages@[i].address@ != addr@);
                            assert(prev[i].usage.address == addr@);
                        }
                        if i > j as int {
                            assert(prev[j as int].usage.address != addr@);
                        }
                        assert(i == j as int);
                    }
                    let ghost us0 = usages@;
                    let ghost ss0 = seens@;
                    let ghost target = touch_entry(prev[j as int], txs[idx as int].from, gh);
                    let mut u = usages.remove(j);
                    let mut sn = seens.remove(j);
                    proof {
                        assert(u@ == prev[j as int].usage);
                        assert(sn.deep_view() == prev[j as int].seen_wallets);
                        assert(u.total_calls <= idx < n <= usize::MAX <= u64::MAX);
                        assert(u.unique_wallets == sn.deep_view().len() <= idx);
                        assert(u.first_interaction_block == height);
                    }
                    u.total_calls = u.total_calls + 1;
                    u.last_interaction_block = height;
                    u.is_new_contract = height - u.first_interaction_block
                        <= NEW_CONTRACT_WINDOW;
                    let known = contains_string(&sn, &waddr);
                    proof {
                        assert(known == prev[j as int].seen_wallets.contains(
                            addr_chars(txs[idx as int].from),
                        ));
                        assert(sn.deep_view().len() == sn.len());
                    }
                    let ghost iw0 = u.interacting_wallets.deep_view();
                    if !known {
                        u.unique_wallets = u.unique_wallets + 1;
                        if sn.len() < MAX_WALLETS_PER_CONTRACT {
                            u.interacting_wallets.push(waddr.clone());
                            proof {
                                assert(u.interacting_wallets.deep_view() =~= iw0.push(
                                    addr_chars(txs[idx as int].from),
                                ));
                            }
                        }
                        sn.push(waddr);
                        proof {
                            assert(sn.deep_view() =~= prev[j as int].seen_wallets.push(
                                addr_chars(txs[idx as int].from),
                            ));
                        }
                    }
                    proof {
                        assert(u@ == target.usage);
                        assert(sn.deep_view() == target.seen_wallets);
                    }
                    let ghost gu = u;
                    let ghost gsn = sn;
                    usages.insert(j, u);
                    seens.insert(j, sn);
                    proof {
                        assert(usages@ =~= us0.update(j as int, gu));
                        assert(seens@ =~= ss0.update(j as int, gsn));
                        assert(abs_entries(usages@, seens@) =~~= prev.update(j as int, target));
                        assert(extract_step(prev, txs[idx as int], gh, gd) == prev.update(
                            j as int,
                            target,
                        ));
                    }
                },
                None => {
                    proof {
                        assert(find_entry(prev, addr@) == -1) by {
                            lemma_find_entry_props(prev, addr@);
                            if find_entry(prev, addr@) != -1 {
                                let i = find_entry(prev, addr@);
                                assert(usages@[i].address@ == addr@);
                            }
                        }
                    }
                    if usages.len() < MAX_CONTRACTS_PER_BLOCK {
                        let ghost us0 = usages@;
                        let ghost ss0 = seens@;
                        let ghost target = touch_entry(
                            blank_entry(addr@, gh, gd),
                            txs[idx as int].from,
                            gh,
                        );
                        let mut wallets: Vec<String> = Vec::new();
                        wallets.push(waddr.clone());
                        let u = ContractUsage {
                            address: addr,
                            first_interaction_block: height,
                            last_interaction_block: height,
                            total_calls: 1,
                            unique_wallets: 1,
                            interacting_wallets: wallets,
                            is_new_contract: true,
                            day_timestamp: day,
                        };
                        let mut sn: Vec<String> = Vec::new();
                        sn.push(waddr);
                        proof {
                            assert(!blank_entry(addr@, gh, gd).seen_wallets.contains(
                                addr_chars(txs[idx as int].from),
                            ));
                            assert(u.interacting_wallets.deep_view() =~= Seq::<
                                Seq<char>,
                            >::empty().push(addr_chars(txs[idx as int].from)));
                            assert(sn.deep_view() =~= Seq::<Seq<char>>::empty().push(
                                addr_chars(txs[idx as int].from),
                            ));
                            assert(u@ == target.usage);
                            assert(sn.deep_view() == target.seen_wallets);
                        }
                        let ghost gu = u;
                        let ghost gsn = sn;
                        usages.push(u);
                        seens.push(sn);
                        proof {
                            assert(usages@ =~= us0.push(gu));
                            assert(seens@ =~= ss0.push(gsn));
                            assert(abs_entries(usages@, seens@) =~~= prev.push(target));
                            assert(extract_step(prev, txs[idx as int], gh, gd) == prev.push(
                                target,
                            ));
                        }
                    }
                },
            }
        }
        proof {
            assert(txs.take(idx as int + 1).drop_last() =~= txs.take(idx as int));
            assert(txs.take(idx as int + 1).last() == txs[idx as int]);
            assert(extract_entries(txs.take(idx as int + 1), gh, gd) == extract_step(
                prev,
                txs[idx as int],
                gh,
                gd,
            ));
            assert(abs_entries(usages@, seens@) =~~= extract_entries(
                txs.take(idx as int + 1),
                gh,
                gd,
            ));
        }
        idx += 1;
    }
    proof {
        assert(txs.take(n as int) =~= txs);
    }
    let events = ContractEvents { contracts: usages };
    proof {
        assert(events@ =~~= extract_spec(block@));
    }
    events
}

/// The distinct caller address strings of admitted transactions to
/// `addr`, in first-seen order, over the whole transaction list.
pub open spec fn callers_of(txs: Seq<TxView>, addr: Seq<char>) -> Seq<Seq<char>>
    decreases txs.len(),
{
    if txs.len() == 0 {
        Seq::empty()
    } else {
        let p = callers_of(txs.drop_last(), addr);
        let t = txs.last();
        if admitted(t) && addr_chars(t.to) == addr && !p.contains(addr_chars(t.from)) {
            p.push(addr_chars(t.from))
        } else {
            p
        }
    }
}

/// The number of admitted transactions to `addr`.
pub open spec fn calls_of(txs: Seq<TxView>, addr: Seq<char>) -> int
    decreases txs.len(),
{
    if txs.len() == 0 {
        0
    } else {
        calls_of(txs.drop_last(), addr) + if admitted(txs.last()) && addr_chars(
            txs.last().to,
        ) == addr {
            1int
        } else {
            0int
        }
    }
}

/// The destination addresses that extraction tracks: the first
/// [`MAX_CONTRACTS_PER_BLOCK`] distinct admitted destinations, in
/// transaction order.
pub open spec fn tracked_addrs(txs: Seq<TxView>) -> Seq<Seq<char>>
    decreases txs.len(),
{
    if txs.len() == 0 {
        Seq::empty()
    } else {
        let p = tracked_addrs(txs.drop_last());
        let t = txs.last();
        if admitted(t) && !p.contains(addr_chars(t.to)) && p.len() < MAX_CONTRACTS_PER_BLOCK {
            p.push(addr_chars(t.to))
        } else {
            p
        }
    }
}

/// The addresses of the entries, in order.
pub open spec fn addrs_of(s: Seq<EntrySpec>) -> Seq<Seq<char>> {
    s.map_values(|e: EntrySpec| e.usage.address)
}

/// The tracked addresses are pairwise distinct and capped.
pub proof fn lemma_tracked_distinct(txs: Seq<TxView>)
    ensures
        forall|i: int, j: int|
            0 <= i < j < tracked_addrs(txs).len() ==> tracked_addrs(txs)[i] != tracked_addrs(
                txs,
            )[j],
        tracked_addrs(txs).len() <= MAX_CONTRACTS_PER_BLOCK,
    decreases txs.len(),
{
    if txs.len() > 0 {
        lemma_tracked_distinct(txs.drop_last());
        let p = tracked_addrs(txs.drop_last());
        let q = tracked_addrs(txs);
        if q.len() == p.len() + 1 {
            assert forall|i: int, j: int| 0 <= i < j < q.len() implies q[i] != q[j] by {
                if j == q.len() - 1 {
                    assert(!p.contains(q[j]));
                    assert(q[i] == p[i]);
                }
            }
        }
    }
}

/// The callers of any one address are pairwise distinct.
pub proof fn lemma_callers_distinct(txs: Seq<TxView>, addr: Seq<char>)
    ensures
        forall|i: int, j: int|
            0 <= i < j < callers_of(txs, addr).len() ==> callers_of(txs, addr)[i] != callers_of(
                txs,
                addr,
            )[j],
    decreases txs.len(),
{
    if txs.len() > 0 {
        lemma_callers_distinct(txs.drop_last(), addr);
        let p = callers_of(txs.drop_last(), addr);
        let q = callers_of(txs, addr);
        if q.len() == p.len() + 1 {
            assert forall|i: int, j: int| 0 <= i < j < q.len() implies q[i] != q[j] by {
                if j == q.len() - 1 {
                    assert(!p.contains(q[j]));
                    assert(q[i] == p[i]);
                }
            }
        }
    }
}

/// An address that the tracker, while under its cap, has not tracked
/// has no admitted transactions at all.
pub proof fn lemma_untracked_no_calls(txs: Seq<TxView>, addr: Seq<char>)
    requires
        !tracked_addrs(txs).contains(addr),
        tracked_addrs(txs).len() < MAX_CONTRACTS_PER_BLOCK,
    ensures
        callers_of(txs, addr) == Seq::<Seq<char>>::empty(),
        calls_of(txs, addr) == 0,
    decreases txs.len(),
{
    if txs.len() > 0 {
        let p = tracked_addrs(txs.drop_last());
        let q = tracked_addrs(txs);
        let t = txs.last();
        if q.len() == p.len() + 1 {
            assert(forall|i: int| 0 <= i < p.len() ==> q[i] == p[i]);
            if p.contains(addr) {
                let i = choose|i: int| 0 <= i < p.len() && p[i] == addr;
                assert(q[i] == addr);
                assert(false);
            }
        } else {
            assert(q == p);
        }
        lemma_untracked_no_calls(txs.drop_last(), addr);
        if admitted(t) && addr_chars(t.to) == addr {
            assert(!p.contains(addr) && p.len() < MAX_CONTRACTS_PER_BLOCK);
            assert(q[p.len() as int] == addr);
            assert(q.contains(addr));
            assert(false);
        }
    }
}

/// The heart of the extraction invariant: the tracked entries are
/// exactly the tracked addresses, in order, and each entry has seen
/// exactly the distinct callers, and counted exactly the admitted
/// transactions, of its address over the whole list.
pub proof fn lemma_entries_tracked(txs: Seq<TxView>, height: int, day: int)
    ensures
        addrs_of(extract_entries(txs, height, day)) == tracked_addrs(txs),
        forall|k: int|
            0 <= k < extract_entries(txs, height, day).len() ==> {
                let e = #[trigger] extract_entries(txs, height, day)[k];
                &&& e.seen_wallets == callers_of(txs, e.usage.address)
                &&& e.usage.total_calls == calls_of(txs, e.usage.address)
            },
    decreases txs.len(),
{
    if txs.len() == 0 {
        assert(addrs_of(extract_entries(txs, height, day)) =~= tracked_addrs(txs));
    } else {
        let pre = txs.drop_last();
        lemma_entries_tracked(pre, height, day);
        lemma_tracked_distinct(pre);
        let s = extract_entries(pre, height, day);
        let s2 = extract_entries(txs, height, day);
        let t = txs.last();
        let p = tracked_addrs(pre);
        let q = tracked_addrs(txs);
        assert(forall|k: int| 0 <= k < s.len() ==> addrs_of(s)[k] == s[k].usage.address);
        if !admitted(t) {
            assert(s2 == s && q == p);
        } else {
            let a = addr_chars(t.to);
            let w = addr_chars(t.from);
            let i = find_entry(s, a);
            lemma_find_entry_props(s, a);
            if i >= 0 {
                assert(p[i] == a);
                assert(p.contains(a));
                assert(q == p);
                assert(s2 == s.update(i, touch_entry(s[i], t.from, height)));
                assert(addrs_of(s2) =~= p);
                assert forall|k: int| 0 <= k < s2.len() implies {
                    let e = #[trigger] s2[k];
                    &&& e.seen_wallets == callers_of(txs, e.usage.address)
                    &&& e.usage.total_calls == calls_of(txs, e.usage.address)
                } by {
                    if k != i {
                        assert(s2[k] == s[k]);
                        assert(s[k].usage.address != a) by {
                            if s[k].usage.address == a {
                                assert(addrs_of(s)[k] == a && addrs_of(s)[i] == a);
                            }
                        }
                        assert(callers_of(txs, s[k].usage.address) == callers_of(
                            pre,
                            s[k].usage.address,
                        ));
                    } else {
                        let e = s[i];
                        let e2 = s2[i];
                        assert(e2 == touch_entry(e, t.from, height));
                        assert(e.seen_wallets == callers_of(pre, a));
                        assert(callers_of(txs, a) == if !callers_of(pre, a).contains(w) {
                            callers_of(pre, a).push(w)
                        } else {
                            callers_of(pre, a)
                        });
                        assert(calls_of(txs, a) == calls_of(pre, a) + 1);
                    }
                }
            } else {
                assert(!p.contains(a)) by {
                    if p.contains(a) {
                        let k = choose|k: int| 0 <= k < p.len() && p[k] == a;
                        assert(s[k].usage.address == a);
                    }
                }
                if s.len() >= MAX_CONTRACTS_PER_BLOCK {
                    assert(s2 == s && q == p);
                    assert(forall|k: int|
                        0 <= k < s.len() ==> #[trigger] s[k].usage.address != a);
                    assert forall|k: int| 0 <= k < s2.len() implies {
                        let e = #[trigger] s2[k];
                        &&& e.seen_wallets == callers_of(txs, e.usage.address)
                        &&& e.usage.total_calls == calls_of(txs, e.usage.address)
                    } by {
                        assert(s2[k] == s[k]);
                    }
                } else {
                    let blank = blank_entry(a, height, day);
                    let e2 = touch_entry(blank, t.from, height);
                    assert(s2 == s.push(e2));
                    assert(q == p.push(a));
                    assert(addrs_of(s2) =~= q);
                    lemma_untracked_no_calls(pre, a);
                    assert forall|k: int| 0 <= k < s2.len() implies {
                        let e = #[trigger] s2[k];
                        &&& e.seen_wallets == callers_of(txs, e.usage.address)
                        &&& e.usage.total_calls == calls_of(txs, e.usage.address)
                    } by {
                        if k < s.len() {
                            assert(s2[k] == s[k]);
                            assert(s[k].usage.address != a);
                        } else {
                            assert(s2[k] == e2);
                            assert(e2.usage.address == a);
                            assert(!callers_of(pre, a).contains(w));
                            assert(callers_of(txs, a) == callers_of(pre, a).push(w));
                            assert(e2.seen_wallets =~= callers_of(txs, a));
                            assert(calls_of(txs, a) == 1);
                        }
                    }
                }
            }
        }
    }
}

/// A block's batch holds at most one record per distinct destination
/// address, and at most the contract cap many records.
pub proof fn lemma_extract_unique_addresses(b: BlockView)
    ensures
        forall|i: int, j: int|
            0 <= i < j < extract_spec(b).len() ==> extract_spec(b)[i].address != extract_spec(
                b,
            )[j].address,
        extract_spec(b).len() <= MAX_CONTRACTS_PER_BLOCK,
{
    match b.timestamp_seconds {
        Option::None => {},
        Option::Some(ts) => {
            let txs = b.transaction_traces;
            let es = extract_entries(txs, b.number as int, day_bucket(ts as int));
            lemma_entries_tracked(txs, b.number as int, day_bucket(ts as int));
            lemma_tracked_distinct(txs);
            assert(forall|k: int|
                0 <= k < es.len() ==> #[trigger] extract_spec(b)[k].address == addrs_of(
                    es,
                )[k]);
            assert(addrs_of(es).len() == es.len());
        },
    }
}

/// The batch's addresses are exactly the tracked addresses: the first
/// [`MAX_CONTRACTS_PER_BLOCK`] distinct admitted destinations of the
/// block, in transaction order.
pub proof fn lemma_extract_retained_set(b: BlockView)
    requires
        b.timestamp_seconds is Some,
    ensures
        extract_spec(b).map_values(|u: UsageView| u.address) == tracked_addrs(
            b.transaction_traces,
        ),
{
    let ts = b.timestamp_seconds.unwrap();
    let txs = b.transaction_traces;
    let es = extract_entries(txs, b.number as int, day_bucket(ts as int));
    lemma_entries_tracked(txs, b.number as int, day_bucket(ts as int));
    assert(extract_spec(b).map_values(|u: UsageView| u.address) =~= addrs_of(es));
}

/// Wallet accounting of each record in a block's batch: the stored
/// wallet list is the insertion-ordered sequence of the address's
/// distinct callers truncated at the wallet cap, and the caller
/// counter is the full distinct count, however far past the cap.
pub proof fn lemma_extract_wallets(b: BlockView)
    requires
        b.timestamp_seconds is Some,
    ensures
        forall|k: int|
            0 <= k < extract_spec(b).len() ==> {
                let u = #[trigger] extract_spec(b)[k];
                let cs = callers_of(b.transaction_traces, u.address);
                &&& u.interacting_wallets == capped_wallets(cs)
                &&& u.interacting_wallets.len() <= MAX_WALLETS_PER_CONTRACT
                &&& u.unique_wallets == cs.len()
                &&& forall|x: int, y: int| 0 <= x < y < cs.len() ==> cs[x] != cs[y]
            },
{
    let ts = b.timestamp_seconds.unwrap();
    let txs = b.transaction_traces;
    let h = b.number as int;
    let d = day_bucket(ts as int);
    let es = extract_entries(txs, h, d);
    lemma_entries_tracked(txs, h, d);
    lemma_entries_wf(txs, h, d);
    assert forall|k: int| 0 <= k < extract_spec(b).len() implies {
        let u = #[trigger] extract_spec(b)[k];
        let cs = callers_of(b.transaction_traces, u.address);
        &&& u.interacting_wallets == capped_wallets(cs)
        &&& u.interacting_wallets.len() <= MAX_WALLETS_PER_CONTRACT
        &&& u.unique_wallets == cs.len()
        &&& forall|x: int, y: int| 0 <= x < y < cs.len() ==> cs[x] != cs[y]
    } by {
        assert(extract_spec(b)[k] == es[k].usage);
        lemma_callers_distinct(txs, es[k].usage.address);
    }
}

/// Extraction has no hidden state: its result is a function of the
/// block alone, so the same block always yields the same batch.
pub proof fn lemma_extract_deterministic(
    b1: BlockView,
    b2: BlockView,
    r1: Seq<UsageView>,
    r2: Seq<UsageView>,
)
    requires
        b1 == b2,
        r1 == extract_spec(b1),
        r2 == extract_spec(b2),
    ensures
        r1 == r2,
{
}

} // verus!

