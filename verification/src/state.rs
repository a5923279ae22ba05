//! The stored records of the contract and their mathematical views.
use vstd::prelude::*;

verus! {

/// A slot of the distribution schedule: `(start, end, amount)`. The amount is
/// paid out evenly over the seconds from `start` to `end`.
pub type Slot = (u64, u64, u128);

/// The contract's configuration.
#[derive(Clone, Debug, PartialEq, Eq)]
pub struct Config {
    /// Canonical address of the LUNA token contract.
    pub luna_token: Vec<u8>,
    /// Canonical address of the UST token contract.
    pub ust_token: Vec<u8>,
    /// The reward distribution schedule.
    pub distribution_schedule: Vec<Slot>,
}

/// The global reward state of both pools. Reward indices are decimals held by
/// their atomics (value times 10^18).
#[derive(Clone, Copy, Debug, PartialEq, Eq)]
pub struct State {
    pub last_distributed_luna: u64,
    pub total_bond_amount_luna: u128,
    pub global_reward_index_luna: u128,
    pub last_distributed_ust: u64,
    pub total_bond_amount_ust: u128,
    pub global_reward_index_ust: u128,
}

/// A staker's position in both pools. Reward indices are decimals held by
/// their atomics.
#[derive(Clone, Copy, Debug, PartialEq, Eq)]
pub struct StakerInfo {
    pub reward_index_luna: u128,
    pub bond_amount_luna: u128,
    pub pending_reward_luna: u128,
    pub reward_index_ust: u128,
    pub bond_amount_ust: u128,
    pub pending_reward_ust: u128,
}

/// The global state of one pool.
#[derive(Clone, Copy, Debug, PartialEq, Eq)]
pub struct Pool {
    pub last_distributed: u64,
    pub total_bond_amount: u128,
    pub global_reward_index: u128,
}

/// A staker's position in one pool.
#[derive(Clone, Copy, Debug, PartialEq, Eq)]
pub struct Stake {
    pub reward_index: u128,
    pub bond_amount: u128,
    pub pending_reward: u128,
}

impl State {
    /// The LUNA pool.
    pub open spec fn luna(self) -> Pool {
        Pool {
            last_distributed: self.last_distributed_luna,
            total_bond_amount: self.total_bond_amount_luna,
            global_reward_index: self.global_reward_index_luna,
        }
    }

    /// The UST pool.
    pub open spec fn ust(self) -> Pool {
        Pool {
            last_distributed: self.last_distributed_ust,
            total_bond_amount: self.total_bond_amount_ust,
            global_reward_index: self.global_reward_index_ust,
        }
    }

    /// This state with its LUNA pool replaced.
    pub open spec fn with_luna(self, pool: Pool) -> State {
        State {
            last_distributed_luna: pool.last_distributed,
            total_bond_amount_luna: pool.total_bond_amount,
            global_reward_index_luna: pool.global_reward_index,
            ..self
        }
    }

    /// This state with its UST pool replaced.
    pub open spec fn with_ust(self, pool: Pool) -> State {
        State {
            last_distributed_ust: pool.last_distributed,
            total_bond_amount_ust: pool.total_bond_amount,
            global_reward_index_ust: pool.global_reward_index,
            ..self
        }
    }

    /// The LUNA pool, read from a state.
    pub fn luna_pool(&self) -> (pool: Pool)
        ensures
            pool == self.luna(),
    {
        Pool {
            last_distributed: self.last_distributed_luna,
            total_bond_amount: self.total_bond_amount_luna,
            global_reward_index: self.global_reward_index_luna,
        }
    }

    /// The UST pool, read from a state.
    pub fn ust_pool(&self) -> (pool: Pool)
        ensures
            pool == self.ust(),
    {
        Pool {
            last_distributed: self.last_distributed_ust,
            total_bond_amount: self.total_bond_amount_ust,
            global_reward_index: self.global_reward_index_ust,
        }
    }

    /// Replaces the LUNA pool.
    pub fn set_luna_pool(&mut self, pool: Pool)
        ensures
            *final(self) == old(self).with_luna(pool),
    {
        self.last_distributed_luna = pool.last_distributed;
        self.total_bond_amount_luna = pool.total_bond_amount;
        self.global_reward_index_luna = pool.global_reward_index;
    }

    /// Replaces the UST pool.
    pub fn set_ust_pool(&mut self, pool: Pool)
        ensures
            *final(self) == old(self).with_ust(pool),
    {
        self.last_distributed_ust = pool.last_distributed;
        self.total_bond_amount_ust = pool.total_bond_amount;
        self.global_reward_index_ust = pool.global_reward_index;
    }
}

impl StakerInfo {
    /// The staker's LUNA position.
    pub open spec fn luna(self) -> Stake {
        Stake {
            reward_index: self.reward_index_luna,
            bond_amount: self.bond_amount_luna,
            pending_reward: self.pending_reward_luna,
        }
    }

    /// The staker's UST position.
    pub open spec fn ust(self) -> Stake {
        Stake {
            reward_index: self.reward_index_ust,
            bond_amount: self.bond_amount_ust,
            pending_reward: self.pending_reward_ust,
        }
    }

    /// This position with its LUNA part replaced.
    pub open spec fn with_luna(self, stake: Stake) -> StakerInfo {
        StakerInfo {
            reward_index_luna: stake.reward_index,
            bond_amount_luna: stake.bond_amount,
            pending_reward_luna: stake.pending_reward,
            ..self
        }
    }

    /// This position with its UST part replaced.
    pub open spec fn with_ust(self, stake: Stake) -> StakerInfo {
        StakerInfo {
            reward_index_ust: stake.reward_index,
            bond_amount_ust: stake.bond_amount,
            pending_reward_ust: stake.pending_reward,
            ..self
        }
    }

    /// The staker's LUNA position, read from a record.
    pub fn luna_stake(&self) -> (stake: Stake)
        ensures
            stake == self.luna(),
    {
        Stake {
            reward_index: self.reward_index_luna,
            bond_amount: self.bond_amount_luna,
            pending_reward: self.pending_reward_luna,
        }
    }

    /// The staker's UST position, read from a record.
    pub fn ust_stake(&self) -> (stake: Stake)
        ensures
            stake == self.ust(),
    {
        Stake {
            reward_index: self.reward_index_ust,
            bond_amount: self.bond_amount_ust,
            pending_reward: self.pending_reward_ust,
        }
    }

    /// Replaces the LUNA position.
    pub fn set_luna_stake(&mut self, stake: Stake)
        ensures
            *final(self) == old(self).with_luna(stake),
    {
        self.reward_index_luna = stake.reward_index;
        self.bond_amount_luna = stake.bond_amount;
        self.pending_reward_luna = stake.pending_reward;
    }

    /// Replaces the UST position.
    pub fn set_ust_stake(&mut self, stake: Stake)
        ensures
            *final(self) == old(self).with_ust(stake),
    {
        self.reward_index_ust = stake.reward_index;
        self.bond_amount_ust = stake.bond_amount;
        self.pending_reward_ust = stake.pending_reward;
    }
}

/// The record of a staker who has nothing bonded and nothing pending.
pub open spec fn empty_staker_info() -> StakerInfo {
    StakerInfo {
        reward_index_luna: 0,
        bond_amount_luna: 0,
        pending_reward_luna: 0,
        reward_index_ust: 0,
        bond_amount_ust: 0,
        pending_reward_ust: 0,
    }
}

/// The staker record to use given what storage holds for the staker: the
/// stored record, or an empty one where none is stored.
pub fn read_staker_info(stored: Option<StakerInfo>) -> (staker_info: StakerInfo)
    ensures
        staker_info == match stored {
            Some(info) => info,
            None => empty_staker_info(),
        },
{
    match stored {
        Some(staker_info) => staker_info,
        None => StakerInfo {
            reward_index_luna: 0,
            bond_amount_luna: 0,
            pending_reward_luna: 0,
            reward_index_ust: 0,
            bond_amount_ust: 0,
            pending_reward_ust: 0,
        },
    }
}

} // verus!
