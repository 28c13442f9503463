use contract_usage::daily::aggregate_daily;
use contract_usage::extract::{map_contract_usage, BlockInput, TxTrace};
use contract_usage::hexenc::address_string;
use contract_usage::records::{ContractEvents, ContractUsage, DailyStats};
use contract_usage::store::{
    contract_key, daily_key, store_contract_stats, store_daily_stats, KeyedStore,
};
use contract_usage::text::u64_to_dec;
use contract_usage::translate::{graph_out, FieldValue};

fn tx(to: Vec<u8>, from: Vec<u8>, status: i32, gas_used: u64) -> TxTrace {
    TxTrace { to, from, status, gas_used }
}

fn block(ts: Option<u64>, number: u64, txs: Vec<TxTrace>) -> BlockInput {
    BlockInput { timestamp_seconds: ts, number, transaction_traces: txs }
}

fn two_byte_addr(i: usize) -> Vec<u8> {
    vec![(i >> 8) as u8, (i & 0xff) as u8]
}

#[test]
fn hex_address_strings() {
    assert_eq!(address_string(&vec![0xab, 0xcd]), "0xabcd");
    assert_eq!(address_string(&vec![0x00, 0x1f]), "0x001f");
    assert_eq!(address_string(&Vec::new()), "0x");
}

#[test]
fn decimal_strings() {
    assert_eq!(u64_to_dec(0), "0");
    assert_eq!(u64_to_dec(7), "7");
    assert_eq!(u64_to_dec(10), "10");
    assert_eq!(u64_to_dec(12345), "12345");
    assert_eq!(u64_to_dec(u64::MAX), "18446744073709551615");
}

#[test]
fn store_keys() {
    assert_eq!(
        contract_key(&String::from("0xabcd")),
        "contract_usage:0xabcd"
    );
    assert_eq!(daily_key(1609459200), "daily_contract_stats:1609459200");
}

#[test]
fn extract_single_admitted_tx() {
    let b = block(
        Some(1609459200),
        1000,
        vec![
            tx(vec![0xaa], vec![0xbb], 1, 50000),
            tx(vec![0xcc], vec![0xdd], 0, 50000),
        ],
    );
    let events = map_contract_usage(&b);
    assert_eq!(events.contracts.len(), 1);
    let c = &events.contracts[0];
    assert_eq!(c.address, "0xaa");
    assert_eq!(c.first_interaction_block, 1000);
    assert_eq!(c.last_interaction_block, 1000);
    assert_eq!(c.total_calls, 1);
    assert_eq!(c.unique_wallets, 1);
    assert_eq!(c.interacting_wallets, vec![String::from("0xbb")]);
    assert!(c.is_new_contract);
    assert_eq!(c.day_timestamp, 1609459200);
}

#[test]
fn extract_missing_timestamp_yields_empty_batch() {
    let b = block(None, 5, vec![tx(vec![0xaa], vec![0xbb], 1, 50000)]);
    let events = map_contract_usage(&b);
    assert!(events.contracts.is_empty());
}

#[test]
fn extract_early_timestamp_still_processes() {
    let b = block(Some(100), 5, vec![tx(vec![0xaa], vec![0xbb], 1, 50000)]);
    let events = map_contract_usage(&b);
    assert_eq!(events.contracts.len(), 1);
    assert_eq!(events.contracts[0].day_timestamp, 0);
}

#[test]
fn extract_filters_by_gas_status_and_destination() {
    let b = block(
        Some(1609459200),
        7,
        vec![
            tx(vec![0x01], vec![0xb1], 1, 21000),
            tx(vec![0x02], vec![0xb2], 1, 20999),
            tx(vec![0x03], vec![0xb3], 2, 50000),
            tx(Vec::new(), vec![0xb4], 1, 50000),
        ],
    );
    let events = map_contract_usage(&b);
    assert_eq!(events.contracts.len(), 1);
    assert_eq!(events.contracts[0].address, "0x01");
}

#[test]
fn extract_is_idempotent() {
    let mk = || {
        block(
            Some(1700000000),
            42,
            vec![
                tx(vec![0xaa], vec![0xb1], 1, 30000),
                tx(vec![0xaa], vec![0xb2], 1, 40000),
                tx(vec![0xcc], vec![0xb1], 1, 21000),
            ],
        )
    };
    let e1 = map_contract_usage(&mk());
    let e2 = map_contract_usage(&mk());
    assert_eq!(e1.contracts, e2.contracts);
}

#[test]
fn extract_accumulates_calls_and_dedupes_callers() {
    let b = block(
        Some(1700000000),
        42,
        vec![
            tx(vec![0xaa], vec![0xb1], 1, 30000),
            tx(vec![0xaa], vec![0xb1], 1, 30000),
            tx(vec![0xaa], vec![0xb2], 1, 30000),
        ],
    );
    let events = map_contract_usage(&b);
    assert_eq!(events.contracts.len(), 1);
    let c = &events.contracts[0];
    assert_eq!(c.total_calls, 3);
    assert_eq!(c.unique_wallets, 2);
    assert_eq!(
        c.interacting_wallets,
        vec![String::from("0xb1"), String::from("0xb2")]
    );
}

#[test]
fn extract_contract_cap_keeps_first_thousand() {
    let mut txs = Vec::new();
    for i in 0..1500usize {
        txs.push(tx(two_byte_addr(i), vec![0xbb], 1, 21000));
    }
    let b = block(Some(1609459200), 9, txs);
    let events = map_contract_usage(&b);
    assert_eq!(events.contracts.len(), 1000);
    for i in 0..1000usize {
        assert_eq!(events.contracts[i].address, address_string(&two_byte_addr(i)));
    }
}

#[test]
fn extract_cap_still_accumulates_known_contracts() {
    let mut txs = Vec::new();
    for i in 0..1000usize {
        txs.push(tx(two_byte_addr(i), vec![0xbb], 1, 21000));
    }
    // The cap is reached: a new destination is dropped, but the first
    // destination keeps accumulating.
    txs.push(tx(two_byte_addr(2000), vec![0xbb], 1, 21000));
    txs.push(tx(two_byte_addr(0), vec![0xcc], 1, 21000));
    let b = block(Some(1609459200), 9, txs);
    let events = map_contract_usage(&b);
    assert_eq!(events.contracts.len(), 1000);
    assert_eq!(events.contracts[0].total_calls, 2);
    assert_eq!(events.contracts[0].unique_wallets, 2);
}

#[test]
fn extract_wallet_cap_truncates_list_not_counter() {
    let mut txs = Vec::new();
    for i in 0..105usize {
        txs.push(tx(vec![0xaa], two_byte_addr(i), 1, 21000));
    }
    // Repeats of an already-seen caller change nothing.
    txs.push(tx(vec![0xaa], two_byte_addr(3), 1, 21000));
    let b = block(Some(1609459200), 11, txs);
    let events = map_contract_usage(&b);
    assert_eq!(events.contracts.len(), 1);
    let c = &events.contracts[0];
    assert_eq!(c.unique_wallets, 105);
    assert_eq!(c.interacting_wallets.len(), 100);
    for i in 0..100usize {
        assert_eq!(c.interacting_wallets[i], address_string(&two_byte_addr(i)));
    }
    assert_eq!(c.total_calls, 106);
}

fn usage(address: &str, day: u64, calls: u64, wallets: u64, is_new: bool) -> ContractUsage {
    ContractUsage {
        address: String::from(address),
        first_interaction_block: 10,
        last_interaction_block: 10,
        total_calls: calls,
        unique_wallets: wallets,
        interacting_wallets: Vec::new(),
        is_new_contract: is_new,
        day_timestamp: day,
    }
}

#[test]
fn aggregate_daily_groups_and_sums() {
    let events = ContractEvents {
        contracts: vec![
            usage("0xa1", 86400, 5, 2, true),
            usage("0xa2", 86400, 7, 3, false),
            usage("0xa3", 172800, 1, 1, true),
        ],
    };
    let stats = aggregate_daily(&events);
    assert_eq!(stats.len(), 2);
    assert_eq!(
        stats[0],
        DailyStats {
            day_timestamp: 86400,
            active_contracts: 2,
            new_contracts: 1,
            total_calls: 12,
            unique_wallets: 5,
        }
    );
    assert_eq!(
        stats[1],
        DailyStats {
            day_timestamp: 172800,
            active_contracts: 1,
            new_contracts: 1,
            total_calls: 1,
            unique_wallets: 1,
        }
    );
}

#[test]
fn store_set_replaces_value_at_key() {
    let mut store: KeyedStore<DailyStats> = KeyedStore::new();
    let r1 = DailyStats {
        day_timestamp: 86400,
        active_contracts: 1,
        new_contracts: 1,
        total_calls: 4,
        unique_wallets: 2,
    };
    let r2 = DailyStats {
        day_timestamp: 86400,
        active_contracts: 9,
        new_contracts: 0,
        total_calls: 40,
        unique_wallets: 20,
    };
    let k = String::from("daily_contract_stats:86400");
    store.set(k.clone(), r1);
    store.set(k.clone(), r2);
    assert_eq!(store.get(&k), Some(&r2));
    assert_eq!(store.get(&String::from("daily_contract_stats:0")), None);
}

#[test]
fn store_contract_stats_writes_records_verbatim() {
    let events = ContractEvents {
        contracts: vec![usage("0xa1", 86400, 5, 2, true), usage("0xa2", 86400, 7, 3, false)],
    };
    let mut store: KeyedStore<ContractUsage> = KeyedStore::new();
    store_contract_stats(&events, &mut store);
    let got = store.get(&contract_key(&String::from("0xa1"))).unwrap();
    assert_eq!(got, &usage("0xa1", 86400, 5, 2, true));
    let got = store.get(&contract_key(&String::from("0xa2"))).unwrap();
    assert_eq!(got, &usage("0xa2", 86400, 7, 3, false));
}

#[test]
fn daily_store_reflects_only_latest_batch() {
    // The same contract seen in two batches with different wallets: the
    // persisted daily row holds only the second batch's sums.
    let batch1 = ContractEvents { contracts: vec![usage("0xc0", 86400, 2, 2, true)] };
    let batch2 = ContractEvents { contracts: vec![usage("0xc0", 86400, 3, 5, true)] };
    let mut store: KeyedStore<DailyStats> = KeyedStore::new();
    store_daily_stats(&batch1, &mut store);
    store_daily_stats(&batch2, &mut store);
    let got = store.get(&daily_key(86400)).unwrap();
    assert_eq!(
        got,
        &DailyStats {
            day_timestamp: 86400,
            active_contracts: 1,
            new_contracts: 1,
            total_calls: 3,
            unique_wallets: 5,
        }
    );
}

#[test]
fn graph_out_emits_expected_rows() {
    let mut c = usage("0xaa", 1609459200, 4, 2, true);
    c.first_interaction_block = 1000;
    c.last_interaction_block = 1000;
    c.interacting_wallets = vec![String::from("0xb1"), String::from("0xb2")];
    let events = ContractEvents { contracts: vec![c] };
    let rows = graph_out(&events);
    // Contract + 2 * (Interaction + Wallet) + DailyContractStat + DailyStat.
    assert_eq!(rows.len(), 7);
    assert_eq!(rows[0].table, "Contract");
    assert_eq!(rows[0].key, "0xaa");
    assert_eq!(
        rows[0].fields[0],
        (String::from("address"), FieldValue::Text(String::from("0xaa")))
    );
    assert_eq!(
        rows[0].fields[3],
        (String::from("totalCalls"), FieldValue::Uint(4))
    );
    assert_eq!(
        rows[0].fields[5],
        (String::from("isNewContract"), FieldValue::Flag(true))
    );
    assert_eq!(rows[1].table, "Interaction");
    assert_eq!(rows[1].key, "0xaa-0xb1-1000-0");
    assert_eq!(
        rows[1].fields[1],
        (String::from("wallet"), FieldValue::Text(String::from("0xb1")))
    );
    assert_eq!(rows[2].table, "Wallet");
    assert_eq!(rows[2].key, "0xb1");
    assert_eq!(rows[3].table, "Interaction");
    assert_eq!(rows[3].key, "0xaa-0xb2-1000-1");
    assert_eq!(rows[4].table, "Wallet");
    assert_eq!(rows[4].key, "0xb2");
    assert_eq!(rows[5].table, "DailyContractStat");
    assert_eq!(rows[5].key, "0xaa-1609459200-1000");
    assert_eq!(rows[6].table, "DailyStat");
    assert_eq!(rows[6].key, "1609459200-1000");
    assert_eq!(
        rows[6].fields[1],
        (String::from("activeContracts"), FieldValue::Uint(1))
    );
    assert_eq!(
        rows[6].fields[3],
        (String::from("totalCalls"), FieldValue::Uint(4))
    );
}

#[test]
fn graph_out_truncates_interactions_at_ten() {
    let mut c = usage("0xaa", 86400, 12, 12, true);
    for i in 0..12usize {
        c.interacting_wallets.push(address_string(&two_byte_addr(i)));
    }
    let events = ContractEvents { contracts: vec![c] };
    let rows = graph_out(&events);
    let interactions = rows.iter().filter(|r| r.table == "Interaction").count();
    let wallets = rows.iter().filter(|r| r.table == "Wallet").count();
    assert_eq!(interactions, 10);
    assert_eq!(wallets, 10);
}

#[test]
fn graph_out_is_deterministic() {
    let mk = || ContractEvents {
        contracts: vec![usage("0xa1", 86400, 5, 2, true), usage("0xa2", 172800, 7, 3, false)],
    };
    let r1 = graph_out(&mk());
    let r2 = graph_out(&mk());
    assert_eq!(r1, r2);
}

#[test]
fn graph_out_empty_batch_yields_no_rows() {
    let events = ContractEvents { contracts: Vec::new() };
    let rows = graph_out(&events);
    assert!(rows.is_empty());
}

#[test]
fn extract_keeps_first_occurrence_order() {
    let b = block(
        Some(1700000000),
        42,
        vec![
            tx(vec![0xcc], vec![0xb1], 1, 30000),
            tx(vec![0xaa], vec![0xb2], 1, 30000),
            tx(vec![0xcc], vec![0xb3], 1, 30000),
        ],
    );
    let events = map_contract_usage(&b);
    assert_eq!(events.contracts.len(), 2);
    assert_eq!(events.contracts[0].address, "0xcc");
    assert_eq!(events.contracts[1].address, "0xaa");
    assert_eq!(events.contracts[0].total_calls, 2);
}

#[test]
fn contract_store_replaces_across_batches() {
    let batch1 = ContractEvents { contracts: vec![usage("0xc0", 86400, 2, 2, true)] };
    let batch2 = ContractEvents { contracts: vec![usage("0xc0", 86400, 9, 4, false)] };
    let mut store: KeyedStore<ContractUsage> = KeyedStore::new();
    store_contract_stats(&batch1, &mut store);
    store_contract_stats(&batch2, &mut store);
    let got = store.get(&contract_key(&String::from("0xc0"))).unwrap();
    assert_eq!(got, &usage("0xc0", 86400, 9, 4, false));
}
