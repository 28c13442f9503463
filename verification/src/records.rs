//! The record types that the pipeline produces: per-contract usage
//! records, the per-block batch of them, and per-day aggregate rows.

use vstd::prelude::*;

verus! {

/// Usage statistics for one contract address, accumulated over the
/// transactions of a single block.
#[derive(Debug, PartialEq)]
pub struct ContractUsage {
    /// Canonical lowercase hex string (with a `0x` prefix); the identity key.
    pub address: String,
    /// Height of the block in which this record first saw the contract.
    pub first_interaction_block: u64,
    /// Height of the block in which this record last saw the contract.
    pub last_interaction_block: u64,
    /// Number of admitted transactions to this contract.
    pub total_calls: u64,
    /// Number of distinct caller addresses seen, independent of the cap
    /// on the stored list below.
    pub unique_wallets: u64,
    /// The distinct caller addresses in insertion order, truncated at
    /// the configured cap.
    pub interacting_wallets: Vec<String>,
    /// Whether the contract was first seen within the configured window
    /// of recent blocks.
    pub is_new_contract: bool,
    /// Start-of-day timestamp (86400-second buckets) of the block.
    pub day_timestamp: u64,
}

/// Mathematical value of a [`ContractUsage`] record.
pub ghost struct UsageView {
    pub address: Seq<char>,
    pub first_interaction_block: int,
    pub last_interaction_block: int,
    pub total_calls: int,
    pub unique_wallets: int,
    pub interacting_wallets: Seq<Seq<char>>,
    pub is_new_contract: bool,
    pub day_timestamp: int,
}

impl ContractUsage {
    /// An owned copy with the same mathematical value.
    pub fn duplicate(&self) -> (r: ContractUsage)
        ensures
            r@ == self@,
    {
        let mut wallets: Vec<String> = Vec::new();
        let n = self.interacting_wallets.len();
        let mut i: usize = 0;
        proof {
            assert(wallets.deep_view() =~~= self.interacting_wallets.deep_view().take(0));
        }
        while i < n
            invariant
                i <= n,
                n == self.interacting_wallets.len(),
                wallets.deep_view() == self.interacting_wallets.deep_view().take(i as int),
            decreases n - i,
        {
            proof {
                assert(wallets.deep_view().len() == i as int);
                assert(wallets@.len() == i);
            }
            let ghost w0 = wallets@;
            let w = self.interacting_wallets[i].clone();
            proof {
                assert(w == self.interacting_wallets@[i as int]);
                assert(w@ == self.interacting_wallets.deep_view()[i as int]);
            }
            wallets.push(w);
            proof {
                assert(wallets@ == w0.push(self.interacting_wallets@[i as int]));
                assert(wallets.deep_view().len() == i + 1);
                assert(wallets.deep_view() =~~= self.interacting_wallets.deep_view().take(
                    i as int + 1,
                ));
            }
            i += 1;
        }
        proof {
            assert(self.interacting_wallets.deep_view().take(n as int)
                =~~= self.interacting_wallets.deep_view());
        }
        ContractUsage {
            address: self.address.clone(),
            first_interaction_block: self.first_interaction_block,
            last_interaction_block: self.last_interaction_block,
            total_calls: self.total_calls,
            unique_wallets: self.unique_wallets,
            interacting_wallets: wallets,
            is_new_contract: self.is_new_contract,
            day_timestamp: self.day_timestamp,
        }
    }
}

impl View for ContractUsage {
    type V = UsageView;

    open spec fn view(&self) -> UsageView {
        UsageView {
            address: self.address@,
            first_interaction_block: self.first_interaction_block as int,
            last_interaction_block: self.last_interaction_block as int,
            total_calls: self.total_calls as int,
            unique_wallets: self.unique_wallets as int,
            interacting_wallets: self.interacting_wallets.deep_view(),
            is_new_contract: self.is_new_contract,
            day_timestamp: self.day_timestamp as int,
        }
    }
}

/// Per-wallet interaction statistics, for consumers that track callers
/// rather than contracts.
#[derive(Debug, PartialEq)]
pub struct WalletInteraction {
    pub wallet_address: String,
    pub interaction_count: u64,
    pub first_interaction_block: u64,
    pub last_interaction_block: u64,
    pub is_repeat_user: bool,
}

/// Mathematical value of a [`WalletInteraction`] record.
pub ghost struct WalletInteractionView {
    pub wallet_address: Seq<char>,
    pub interaction_count: int,
    pub first_interaction_block: int,
    pub last_interaction_block: int,
    pub is_repeat_user: bool,
}

impl View for WalletInteraction {
    type V = WalletInteractionView;

    open spec fn view(&self) -> WalletInteractionView {
        WalletInteractionView {
            wallet_address: self.wallet_address@,
            interaction_count: self.interaction_count as int,
            first_interaction_block: self.first_interaction_block as int,
            last_interaction_block: self.last_interaction_block as int,
            is_repeat_user: self.is_repeat_user,
        }
    }
}

/// The batch of contract records extracted from one block.
pub struct ContractEvents {
    pub contracts: Vec<ContractUsage>,
}

impl View for ContractEvents {
    type V = Seq<UsageView>;

    open spec fn view(&self) -> Seq<UsageView> {
        self.contracts@.map_values(|c: ContractUsage| c@)
    }
}

/// Aggregate statistics for one calendar-day bucket, summed over the
/// contract records of a single batch that fall in that bucket.
#[derive(Clone, Copy, Debug, PartialEq)]
pub struct DailyStats {
    pub day_timestamp: u64,
    pub active_contracts: u64,
    pub new_contracts: u64,
    pub total_calls: u64,
    pub unique_wallets: u64,
}

/// Mathematical value of a [`DailyStats`] record.
pub ghost struct DailyStatsView {
    pub day_timestamp: int,
    pub active_contracts: int,
    pub new_contracts: int,
    pub total_calls: int,
    pub unique_wallets: int,
}

impl View for DailyStats {
    type V = DailyStatsView;

    open spec fn view(&self) -> DailyStatsView {
        DailyStatsView {
            day_timestamp: self.day_timestamp as int,
            active_contracts: self.active_contracts as int,
            new_contracts: self.new_contracts as int,
            total_calls: self.total_calls as int,
            unique_wallets: self.unique_wallets as int,
        }
    }
}

} // verus!
