//! Translation of a batch of contract records into entity mutation
//! rows for the downstream graph store: one row per entity, identified
//! by a deterministic string key, with an ordered list of named fields.

use vstd::prelude::*;

use crate::daily::{aggregate_daily, daily_spec, daily_sums_fit};
use crate::records::{ContractEvents, ContractUsage, DailyStats, DailyStatsView, UsageView};
use crate::text::{dec_chars, u64_to_dec};

verus! {

/// At most this many interaction rows are emitted per contract per
/// batch.
pub const MAX_INTERACTIONS_PER_CONTRACT: usize = 10;

/// A field value of an entity row.
#[derive(Debug, PartialEq)]
pub enum FieldValue {
    Text(String),
    Uint(u64),
    Flag(bool),
}

/// Mathematical value of a [`FieldValue`].
pub ghost enum FieldValueView {
    Text(Seq<char>),
    Uint(int),
    Flag(bool),
}

impl View for FieldValue {
    type V = FieldValueView;

    open spec fn view(&self) -> FieldValueView {
        match self {
            FieldValue::Text(s) => FieldValueView::Text(s@),
            FieldValue::Uint(n) => FieldValueView::Uint(*n as int),
            FieldValue::Flag(b) => FieldValueView::Flag(*b),
        }
    }
}

/// One entity mutation row: target table, identity key, named fields.
#[derive(Debug, PartialEq)]
pub struct EntityRow {
    pub table: String,
    pub key: String,
    pub fields: Vec<(String, FieldValue)>,
}

/// Mathematical value of an [`EntityRow`].
pub ghost struct RowView {
    pub table: Seq<char>,
    pub key: Seq<char>,
    pub fields: Seq<(Seq<char>, FieldValueView)>,
}

impl View for EntityRow {
    type V = RowView;

    open spec fn view(&self) -> RowView {
        RowView {
            table: self.table@,
            key: self.key@,
            fields: self.fields@.map_values(|p: (String, FieldValue)| (p.0@, p.1@)),
        }
    }
}

/// The `Contract` row for one record: keyed by the address, carrying
/// the record's scalar fields.
pub open spec fn contract_row(c: UsageView) -> RowView {
    RowView {
        table: "Contract"@,
        key: c.address,
        fields: seq![
            ("address"@, FieldValueView::Text(c.address)),
            ("firstInteractionBlock"@, FieldValueView::Uint(c.first_interaction_block)),
            ("lastInteractionBlock"@, FieldValueView::Uint(c.last_interaction_block)),
            ("totalCalls"@, FieldValueView::Uint(c.total_calls)),
            ("uniqueWallets"@, FieldValueView::Uint(c.unique_wallets)),
            ("isNewContract"@, FieldValueView::Flag(c.is_new_contract)),
        ],
    }
}

/// The identity key of one interaction row: contract address, wallet
/// address, block height and index, joined by `-`. This concatenation
/// is load-bearing for downstream row identity.
pub open spec fn interaction_id_chars(
    contract: Seq<char>,
    wallet: Seq<char>,
    block: int,
    idx: int,
) -> Seq<char> {
    contract + "-"@ + wallet + "-"@ + dec_chars(block) + "-"@ + dec_chars(idx)
}

/// The `Interaction` row for one wallet of one record.
pub open spec fn interaction_row(c: UsageView, w: Seq<char>, idx: int, block: int) -> RowView {
    RowView {
        table: "Interaction"@,
        key: interaction_id_chars(c.address, w, block, idx),
        fields: seq![
            ("contract"@, FieldValueView::Text(c.address)),
            ("wallet"@, FieldValueView::Text(w)),
            ("blockNumber"@, FieldValueView::Uint(c.last_interaction_block)),
            ("timestamp"@, FieldValueView::Uint(c.day_timestamp)),
        ],
    }
}

/// The `Wallet` row for one wallet address (an idempotent upsert).
pub open spec fn wallet_row(w: Seq<char>) -> RowView {
    RowView {
        table: "Wallet"@,
        key: w,
        fields: seq![
            ("address"@, FieldValueView::Text(w)),
            ("contractsInteracted"@, FieldValueView::Uint(1)),
            ("totalInteractions"@, FieldValueView::Uint(1)),
        ],
    }
}

/// The identity key of one per-contract daily row: contract address,
/// day timestamp and block height, joined by `-`.
pub open spec fn daily_contract_id_chars(contract: Seq<char>, day: int, block: int) -> Seq<
    char,
> {
    contract + "-"@ + dec_chars(day) + "-"@ + dec_chars(block)
}

/// The `DailyContractStat` row for one record.
pub open spec fn daily_contract_row(c: UsageView) -> RowView {
    RowView {
        table: "DailyContractStat"@,
        key: daily_contract_id_chars(c.address, c.day_timestamp, c.last_interaction_block),
        fields: seq![
            ("contract"@, FieldValueView::Text(c.address)),
            ("dayTimestamp"@, FieldValueView::Uint(c.day_timestamp)),
            ("calls"@, FieldValueView::Uint(c.total_calls)),
            ("uniqueWallets"@, FieldValueView::Uint(c.unique_wallets)),
        ],
    }
}

/// The `DailyStat` row for one day's aggregate, keyed by day timestamp
/// and triggering block height joined by `-`.
pub open spec fn daily_stat_row(d: DailyStatsView, block: int) -> RowView {
    RowView {
        table: "DailyStat"@,
        key: dec_chars(d.day_timestamp) + "-"@ + dec_chars(block),
        fields: seq![
            ("dayTimestamp"@, FieldValueView::Uint(d.day_timestamp)),
            ("activeContracts"@, FieldValueView::Uint(d.active_contracts)),
            ("newContracts"@, FieldValueView::Uint(d.new_contracts)),
            ("totalCalls"@, FieldValueView::Uint(d.total_calls)),
            ("uniqueWallets"@, FieldValueView::Uint(d.unique_wallets)),
        ],
    }
}

/// How many of a record's stored wallets get interaction rows.
pub open spec fn wallet_count(c: UsageView) -> int {
    if c.interacting_wallets.len() <= MAX_INTERACTIONS_PER_CONTRACT {
        c.interacting_wallets.len() as int
    } else {
        MAX_INTERACTIONS_PER_CONTRACT as int
    }
}

/// The interaction and wallet rows for the first `k` stored wallets of
/// one record, in wallet order: one `Interaction` row then one
/// `Wallet` row per wallet.
pub open spec fn interaction_rows(c: UsageView, block: int, k: int) -> Seq<RowView>
    decreases k,
{
    if k <= 0 {
        Seq::empty()
    } else {
        interaction_rows(c, block, k - 1) + seq![
            interaction_row(c, c.interacting_wallets[k - 1], k - 1, block),
            wallet_row(c.interacting_wallets[k - 1]),
        ]
    }
}

/// All rows emitted for one record: its `Contract` row, its
/// interaction and wallet rows, and its `DailyContractStat` row.
pub open spec fn rows_for_contract(c: UsageView, block: int) -> Seq<RowView> {
    seq![contract_row(c)] + interaction_rows(c, block, wallet_count(c)) + seq![
        daily_contract_row(c),
    ]
}

/// The rows of every record of the batch, in batch order.
pub open spec fn rows_for_contracts(cs: Seq<UsageView>, block: int) -> Seq<RowView>
    decreases cs.len(),
{
    if cs.len() == 0 {
        Seq::empty()
    } else {
        rows_for_contracts(cs.drop_last(), block) + rows_for_contract(cs.last(), block)
    }
}

/// The `DailyStat` rows of the batch's per-day aggregates, in order.
pub open spec fn daily_rows(ds: Seq<DailyStatsView>, block: int) -> Seq<RowView>
    decreases ds.len(),
{
    if ds.len() == 0 {
        Seq::empty()
    } else {
        daily_rows(ds.drop_last(), block).push(daily_stat_row(ds.last(), block))
    }
}

/// The block height used in row identity keys: the last-interaction
/// height of the batch's first record, or 0 for an empty batch.
pub open spec fn block_number_of(cs: Seq<UsageView>) -> int {
    if cs.len() > 0 {
        cs[0].last_interaction_block
    } else {
        0
    }
}

/// Everything the translator emits for a batch: the per-contract rows
/// followed by the per-day aggregate rows. A function of the batch
/// alone: the same batch always yields the same rows.
pub open spec fn translate_spec(cs: Seq<UsageView>) -> Seq<RowView> {
    rows_for_contracts(cs, block_number_of(cs)) + daily_rows(
        daily_spec(cs),
        block_number_of(cs),
    )
}

fn interaction_id(contract: &String, wallet: &String, block: u64, idx: u64) -> (s: String)
    ensures
        s@ == interaction_id_chars(contract@, wallet@, block as int, idx as int),
{
    let mut s = contract.clone();
    s.append("-");
    s.append(wallet.as_str());
    s.append("-");
    let b = u64_to_dec(block);
    s.append(b.as_str());
    s.append("-");
    let d = u64_to_dec(idx);
    s.append(d.as_str());
    proof {
        assert(s@ =~= interaction_id_chars(contract@, wallet@, block as int, idx as int));
    }
    s
}

fn daily_contract_id(contract: &String, day: u64, block: u64) -> (s: String)
    ensures
        s@ == daily_contract_id_chars(contract@, day as int, block as int),
{
    let mut s = contract.clone();
    s.append("-");
    let d = u64_to_dec(day);
    s.append(d.as_str());
    s.append("-");
    let b = u64_to_dec(block);
    s.append(b.as_str());
    proof {
        assert(s@ =~= daily_contract_id_chars(contract@, day as int, block as int));
    }
    s
}

fn make_contract_row(c: &ContractUsage) -> (r: EntityRow)
    ensures
        r@ == contract_row(c@),
{
    let mut fields: Vec<(String, FieldValue)> = Vec::new();
    fields.push((String::from_str("address"), FieldValue::Text(c.address.clone())));
    fields.push(
        (
            String::from_str("firstInteractionBlock"),
            FieldValue::Uint(c.first_interaction_block),
        ),
    );
    fields.push(
        (String::from_str("lastInteractionBlock"), FieldValue::Uint(c.last_interaction_block)),
    );
    fields.push((String::from_str("totalCalls"), FieldValue::Uint(c.total_calls)));
    fields.push((String::from_str("uniqueWallets"), FieldValue::Uint(c.unique_wallets)));
    fields.push((String::from_str("isNewContract"), FieldValue::Flag(c.is_new_contract)));
    let r = EntityRow {
        table: String::from_str("Contract"),
        key: c.address.clone(),
        fields,
    };
    proof {
        assert(r@.fields =~= contract_row(c@).fields);
    }
    r
}

fn make_interaction_row(c: &ContractUsage, wallet: &String, idx: u64, block: u64) -> (r:
    EntityRow)
    ensures
        r@ == interaction_row(c@, wallet@, idx as int, block as int),
{
    let mut fields: Vec<(String, FieldValue)> = Vec::new();
    fields.push((String::from_str("contract"), FieldValue::Text(c.address.clone())));
    fields.push((String::from_str("wallet"), FieldValue::Text(wallet.clone())));
    fields.push((String::from_str("blockNumber"), FieldValue::Uint(c.last_interaction_block)));
    fields.push((String::from_str("timestamp"), FieldValue::Uint(c.day_timestamp)));
    let r = EntityRow {
        table: String::from_str("Interaction"),
        key: interaction_id(&c.address, wallet, block, idx),
        fields,
    };
    proof {
        assert(r@.fields =~= interaction_row(c@, wallet@, idx as int, block as int).fields);
    }
    r
}

fn make_wallet_row(wallet: &String) -> (r: EntityRow)
    ensures
        r@ == wallet_row(wallet@),
{
    let mut fields: Vec<(String, FieldValue)> = Vec::new();
    fields.push((String::from_str("address"), FieldValue::Text(wallet.clone())));
    fields.push((String::from_str("contractsInteracted"), FieldValue::Uint(1)));
    fields.push((String::from_str("totalInteractions"), FieldValue::Uint(1)));
    let r = EntityRow { table: String::from_str("Wallet"), key: wallet.clone(), fields };
    proof {
        assert(r@.fields =~= wallet_row(wallet@).fields);
    }
    r
}

fn make_daily_contract_row(c: &ContractUsage) -> (r: EntityRow)
    ensures
        r@ == daily_contract_row(c@),
{
    let mut fields: Vec<(String, FieldValue)> = Vec::new();
    fields.push((String::from_str("contract"), FieldValue::Text(c.address.clone())));
    fields.push((String::from_str("dayTimestamp"), FieldValue::Uint(c.day_timestamp)));
    fields.push((String::from_str("calls"), FieldValue::Uint(c.total_calls)));
    fields.push((String::from_str("uniqueWallets"), FieldValue::Uint(c.unique_wallets)));
    let r = EntityRow {
        table: String::from_str("DailyContractStat"),
        key: daily_contract_id(&c.address, c.day_timestamp, c.last_interaction_block),
        fields,
    };
    proof {
        assert(r@.fields =~= daily_contract_row(c@).fields);
    }
    r
}

fn make_daily_stat_row(d: &DailyStats, block: u64) -> (r: EntityRow)
    ensures
        r@ == daily_stat_row(d@, block as int),
{
    let mut fields: Vec<(String, FieldValue)> = Vec::new();
    fields.push((String::from_str("dayTimestamp"), FieldValue::Uint(d.day_timestamp)));
    fields.push((String::from_str("activeContracts"), FieldValue::Uint(d.active_contracts)));
    fields.push((String::from_str("newContracts"), FieldValue::Uint(d.new_contracts)));
    fields.push((String::from_str("totalCalls"), FieldValue::Uint(d.total_calls)));
    fields.push((String::from_str("uniqueWallets"), FieldValue::Uint(d.unique_wallets)));
    let mut key = u64_to_dec(d.day_timestamp);
    key.append("-");
    let b = u64_to_dec(block);
    key.append(b.as_str());
    let r = EntityRow { table: String::from_str("DailyStat"), key, fields };
    proof {
        assert(r@.key =~= daily_stat_row(d@, block as int).key);
        assert(r@.fields =~= daily_stat_row(d@, block as int).fields);
    }
    r
}

/// Translates a batch of contract records into entity mutation rows:
/// per contract a `Contract` row, an `Interaction` and a `Wallet` row
/// for each of its first stored wallets (at most
/// [`MAX_INTERACTIONS_PER_CONTRACT`]), and a `DailyContractStat` row;
/// then one `DailyStat` row per day bucket of the batch. Deterministic:
/// the rows are a function of the batch alone.
pub fn graph_out(contracts: &ContractEvents) -> (rows: Vec<EntityRow>)
    requires
        daily_sums_fit(contracts@),
    ensures
        rows@.map_values(|r: EntityRow| r@) == translate_spec(contracts@),
{
    let ghost batch = contracts@;
    let block_number: u64 = if contracts.contracts.len() > 0 {
        contracts.contracts[0].last_interaction_block
    } else {
        0
    };
    proof {
        if batch.len() > 0 {
            assert(batch[0] == contracts.contracts@[0]@);
        }
        assert(block_number as int == block_number_of(batch));
    }
    let ghost gb = block_number as int;
    let mut rows: Vec<EntityRow> = Vec::new();
    let n = contracts.contracts.len();
    let mut i: usize = 0;
    proof {
        assert(rows@.map_values(|r: EntityRow| r@) =~= rows_for_contracts(batch.take(0), gb));
    }
    while i < n
        invariant
            n == contracts.contracts.len(),
            batch == contracts@,
            i <= n,
            gb == block_number as int,
            rows@.map_values(|r: EntityRow| r@) == rows_for_contracts(batch.take(i as int), gb),
        decreases n - i,
    {
        let ghost before = rows@.map_values(|r: EntityRow| r@);
        let c = &contracts.contracts[i];
        proof {
            assert(batch[i as int] == c@);
        }
        rows.push(make_contract_row(c));
        proof {
            assert(rows@.map_values(|r: EntityRow| r@) =~= before + seq![contract_row(c@)]);
        }
        let wn = c.interacting_wallets.len();
        let take_n = if wn < MAX_INTERACTIONS_PER_CONTRACT {
            wn
        } else {
            MAX_INTERACTIONS_PER_CONTRACT
        };
        proof {
            assert(c@.interacting_wallets.len() == wn);
            assert(take_n as int == wallet_count(c@));
        }
        let mut w: usize = 0;
        proof {
            assert(rows@.map_values(|r: EntityRow| r@) =~= before + seq![contract_row(c@)]
                + interaction_rows(c@, gb, 0));
        }
        while w < take_n
            invariant
                w <= take_n,
                take_n <= c.interacting_wallets.len(),
                take_n as int == wallet_count(c@),
                c@ == batch[i as int],
                i < n,
                n == contracts.contracts.len(),
                batch == contracts@,
                c == &contracts.contracts[i as int],
                gb == block_number as int,
                rows@.map_values(|r: EntityRow| r@) == before + seq![contract_row(c@)]
                    + interaction_rows(c@, gb, w as int),
            decreases take_n - w,
        {
            let ghost mid = rows@.map_values(|r: EntityRow| r@);
            let wallet = &c.interacting_wallets[w];
            proof {
                assert(wallet@ == c@.interacting_wallets[w as int]);
                assert(w < MAX_INTERACTIONS_PER_CONTRACT);
            }
            rows.push(make_interaction_row(c, wallet, w as u64, block_number));
            rows.push(make_wallet_row(wallet));
            proof {
                assert(rows@.map_values(|r: EntityRow| r@) =~= mid + seq![
                    interaction_row(c@, c@.interacting_wallets[w as int], w as int, gb),
                    wallet_row(c@.interacting_wallets[w as int]),
                ]);
                assert(rows@.map_values(|r: EntityRow| r@) =~= before + seq![contract_row(c@)]
                    + interaction_rows(c@, gb, w as int + 1));
            }
            w += 1;
        }
        let ghost after_wallets = rows@.map_values(|r: EntityRow| r@);
        rows.push(make_daily_contract_row(c));
        proof {
            assert(rows@.map_values(|r: EntityRow| r@) =~= after_wallets + seq![
                daily_contract_row(c@),
            ]);
            assert(rows@.map_values(|r: EntityRow| r@) =~= before + rows_for_contract(c@, gb));
            assert(batch.take(i as int + 1).drop_last() =~= batch.take(i as int));
            assert(batch.take(i as int + 1).last() == batch[i as int]);
            assert(rows@.map_values(|r: EntityRow| r@) =~= rows_for_contracts(
                batch.take(i as int + 1),
                gb,
            ));
        }
        i += 1;
    }
    proof {
        assert(batch.take(n as int) =~= batch);
    }
    let stats = aggregate_daily(contracts);
    let ghost ds = daily_spec(batch);
    let ghost all_contract_rows = rows@.map_values(|r: EntityRow| r@);
    let m = stats.len();
    let mut k: usize = 0;
    proof {
        assert(rows@.map_values(|r: EntityRow| r@) =~= all_contract_rows + daily_rows(
            ds.take(0),
            gb,
        ));
    }
    while k < m
        invariant
            m == stats.len(),
            stats@.map_values(|d: DailyStats| d@) == ds,
            k <= m,
            gb == block_number as int,
            rows@.map_values(|r: EntityRow| r@) == all_contract_rows + daily_rows(
                ds.take(k as int),
                gb,
            ),
        decreases m - k,
    {
        let ghost mid = rows@.map_values(|r: EntityRow| r@);
        let d = stats[k];
        proof {
            assert(ds[k as int] == d@);
        }
        rows.push(make_daily_stat_row(&d, block_number));
        proof {
            assert(ds.take(k as int + 1).drop_last() =~= ds.take(k as int));
            assert(ds.take(k as int + 1).last() == ds[k as int]);
            assert(rows@.map_values(|r: EntityRow| r@) =~= mid + seq![
                daily_stat_row(ds[k as int], gb),
            ]);
            assert(rows@.map_values(|r: EntityRow| r@) =~= all_contract_rows + daily_rows(
                ds.take(k as int + 1),
                gb,
            ));
        }
        k += 1;
    }
    proof {
        assert(ds.take(m as int) =~= ds);
        assert(rows@.map_values(|r: EntityRow| r@) =~= translate_spec(batch));
    }
    rows
}

} // verus!
