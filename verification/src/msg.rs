//! The messages the contract takes and the answers it gives to queries.
//! Amounts are plain integers, reward indices decimals held by their
//! atomics (value times 10^18).
use vstd::prelude::*;

use crate::state::{Slot, StakerInfo, State};

verus! {

/// What instantiates the contract.
#[derive(Clone, Debug, PartialEq, Eq)]
pub struct InstantiateMsg {
    /// Address of the LUNA staking and reward token.
    pub luna_token: String,
    /// Address of the UST staking and reward token.
    pub ust_token: String,
    pub distribution_schedule: Vec<Slot>,
}

/// The hook message carried by a token transfer to the contract.
#[derive(Clone, Copy, Debug, PartialEq, Eq)]
pub enum Cw20HookMsg {
    Bond {},
}

/// The message of a contract migration.
#[derive(Clone, Copy, Debug, PartialEq, Eq)]
pub struct MigrateMsg {}

/// The queries the contract answers.
#[derive(Clone, Debug, PartialEq, Eq)]
pub enum QueryMsg {
    Config {},
    State { block_time: Option<u64> },
    StakerInfo { staker: String, block_time: Option<u64> },
}

/// The answer to a configuration query.
#[derive(Clone, Debug, PartialEq, Eq)]
pub struct ConfigResponse {
    pub luna_token: String,
    pub ust_token: String,
    pub distribution_schedule: Vec<Slot>,
}

/// The answer to a state query.
#[derive(Clone, Copy, Debug, PartialEq, Eq)]
pub struct StateResponse {
    pub last_distributed_luna: u64,
    pub total_bond_amount_luna: u128,
    pub global_reward_index_luna: u128,
    pub last_distributed_ust: u64,
    pub total_bond_amount_ust: u128,
    pub global_reward_index_ust: u128,
}

/// The answer to a staker query.
#[derive(Clone, Debug, PartialEq, Eq)]
pub struct StakerInfoResponse {
    pub staker: String,
    pub reward_index_luna: u128,
    pub bond_amount_luna: u128,
    pub pending_reward_luna: u128,
    pub reward_index_ust: u128,
    pub bond_amount_ust: u128,
    pub pending_reward_ust: u128,
}

/// The answer that reports a state.
pub open spec fn state_response(state: State) -> StateResponse {
    StateResponse {
        last_distributed_luna: state.last_distributed_luna,
        total_bond_amount_luna: state.total_bond_amount_luna,
        global_reward_index_luna: state.global_reward_index_luna,
        last_distributed_ust: state.last_distributed_ust,
        total_bond_amount_ust: state.total_bond_amount_ust,
        global_reward_index_ust: state.global_reward_index_ust,
    }
}

/// The answer that reports a staker's record.
pub open spec fn staker_info_response(staker: String, info: StakerInfo) -> StakerInfoResponse {
    StakerInfoResponse {
        staker,
        reward_index_luna: info.reward_index_luna,
        bond_amount_luna: info.bond_amount_luna,
        pending_reward_luna: info.pending_reward_luna,
        reward_index_ust: info.reward_index_ust,
        bond_amount_ust: info.bond_amount_ust,
        pending_reward_ust: info.pending_reward_ust,
    }
}

} // verus!
