//! How the distribution schedule pays the pools, and how a staker's share
//! of a pool's rewards accrues.
use vstd::prelude::*;

use crate::error::StakingError;
use crate::math::{
    decimal_from_ratio, lemma_ratio_scale_nonneg, ratio, scale, uint_times_decimal,
};
use crate::state::{Pool, Slot, Stake};

verus! {

pub open spec fn min_u64(a: u64, b: u64) -> u64 {
    if a <= b { a } else { b }
}

pub open spec fn max_u64(a: u64, b: u64) -> u64 {
    if a >= b { a } else { b }
}

/// A slot pays for the interval from the last distribution to `block_time`
/// unless it starts after `block_time` or ends before the last distribution.
pub open spec fn slot_active(slot: Slot, last_distributed: u64, block_time: u64) -> bool {
    !(slot.0 > block_time || slot.1 < last_distributed)
}

/// The seconds of a slot that fall between the last distribution and
/// `block_time`.
pub open spec fn slot_passed(slot: Slot, last_distributed: u64, block_time: u64) -> int {
    min_u64(slot.1, block_time) - max_u64(slot.0, last_distributed)
}

/// The reward that one slot pays for the interval: its amount per second
/// (a decimal, rounded down) times the seconds that passed (rounded down).
pub open spec fn slot_reward(slot: Slot, last_distributed: u64, block_time: u64) -> int {
    if slot_active(slot, last_distributed, block_time) {
        scale(
            slot_passed(slot, last_distributed, block_time),
            ratio(slot.2 as int, slot.1 - slot.0),
        )
    } else {
        0
    }
}

/// The reward that a schedule pays for the interval from `last_distributed`
/// to `block_time`: the sum of what each slot pays.
pub open spec fn distributed_amount(schedule: Seq<Slot>, last_distributed: u64, block_time: u64) -> int
    decreases schedule.len(),
{
    if schedule.len() == 0 {
        0
    } else {
        distributed_amount(schedule.drop_last(), last_distributed, block_time) + slot_reward(
            schedule.last(),
            last_distributed,
            block_time,
        )
    }
}

/// An active slot has a positive length, its interval does not run backwards,
/// and its rate fits a decimal.
pub open spec fn slot_ready(slot: Slot, last_distributed: u64, block_time: u64) -> bool {
    slot_active(slot, last_distributed, block_time) ==> {
        &&& slot.0 < slot.1
        &&& max_u64(slot.0, last_distributed) <= min_u64(slot.1, block_time)
        &&& ratio(slot.2 as int, slot.1 - slot.0) <= u128::MAX
    }
}

/// The inputs on which distributing a pool's rewards up to `block_time`
/// completes: with nothing bonded, always; else every active slot is ready
/// and the sums fit.
pub open spec fn reward_ready(schedule: Seq<Slot>, pool: Pool, block_time: u64) -> bool {
    pool.total_bond_amount != 0 ==> {
        &&& forall|i: int|
            0 <= i < schedule.len() ==> slot_ready(
                #[trigger] schedule[i],
                pool.last_distributed,
                block_time,
            )
        &&& distributed_amount(schedule, pool.last_distributed, block_time) <= u128::MAX
        &&& pool.global_reward_index + ratio(
            distributed_amount(schedule, pool.last_distributed, block_time),
            pool.total_bond_amount as int,
        ) <= u128::MAX
    }
}

/// A pool after its rewards are distributed up to `block_time`: the reward
/// index grows by the distributed amount per bonded unit, and the last
/// distribution moves to `block_time`.
pub open spec fn reward_step(schedule: Seq<Slot>, pool: Pool, block_time: u64) -> Pool {
    Pool {
        last_distributed: block_time,
        total_bond_amount: pool.total_bond_amount,
        global_reward_index: if pool.total_bond_amount == 0 {
            pool.global_reward_index
        } else {
            (pool.global_reward_index + ratio(
                distributed_amount(schedule, pool.last_distributed, block_time),
                pool.total_bond_amount as int,
            )) as u128
        },
    }
}

/// The reward a position earned since it last caught up with the pool:
/// `bond * global_index - bond * own_index`, each product rounded down.
pub open spec fn staker_gain(global_reward_index: u128, stake: Stake) -> int {
    scale(stake.bond_amount as int, global_reward_index as int) - scale(
        stake.bond_amount as int,
        stake.reward_index as int,
    )
}

/// The inputs on which catching a position up with the pool completes.
pub open spec fn staker_ready(global_reward_index: u128, stake: Stake) -> bool {
    &&& scale(stake.bond_amount as int, global_reward_index as int) <= u128::MAX
    &&& scale(stake.bond_amount as int, stake.reward_index as int) <= u128::MAX
    &&& staker_gain(global_reward_index, stake) >= 0 ==> stake.pending_reward + staker_gain(
        global_reward_index,
        stake,
    ) <= u128::MAX
}

/// A position caught up with the pool: the gain moves to the pending reward
/// and the position's index becomes the pool's; refused when the gain would
/// be negative.
pub open spec fn staker_step(global_reward_index: u128, stake: Stake) -> Result<Stake, StakingError> {
    if staker_gain(global_reward_index, stake) < 0 {
        Err(
            StakingError::SubtractionOverflow {
                minuend: scale(stake.bond_amount as int, global_reward_index as int) as u128,
                subtrahend: scale(stake.bond_amount as int, stake.reward_index as int) as u128,
            },
        )
    } else {
        Ok(
            Stake {
                reward_index: global_reward_index,
                bond_amount: stake.bond_amount,
                pending_reward: (stake.pending_reward + staker_gain(
                    global_reward_index,
                    stake,
                )) as u128,
            },
        )
    }
}

/// The reward of a slot is never negative, once the slot is ready.
pub proof fn lemma_slot_reward_nonneg(slot: Slot, last_distributed: u64, block_time: u64)
    requires
        slot_ready(slot, last_distributed, block_time),
    ensures
        slot_reward(slot, last_distributed, block_time) >= 0,
{
    if slot_active(slot, last_distributed, block_time) {
        lemma_ratio_scale_nonneg(
            slot.2 as int,
            slot.1 - slot.0,
            slot_passed(slot, last_distributed, block_time),
            ratio(slot.2 as int, slot.1 - slot.0),
        );
    }
}

/// What a prefix of a ready schedule pays lies between nothing and what the
/// whole schedule pays.
pub proof fn lemma_distributed_prefix(
    schedule: Seq<Slot>,
    k: int,
    last_distributed: u64,
    block_time: u64,
)
    requires
        0 <= k <= schedule.len(),
        forall|i: int|
            0 <= i < schedule.len() ==> slot_ready(
                #[trigger] schedule[i],
                last_distributed,
                block_time,
            ),
    ensures
        0 <= distributed_amount(schedule.take(k), last_distributed, block_time),
        distributed_amount(schedule.take(k), last_distributed, block_time) <= distributed_amount(
            schedule,
            last_distributed,
            block_time,
        ),
    decreases schedule.len(),
{
    if schedule.len() == 0 {
        assert(schedule.take(k) =~= schedule);
    } else {
        let rest = schedule.drop_last();
        assert forall|i: int| 0 <= i < rest.len() implies slot_ready(
            #[trigger] rest[i],
            last_distributed,
            block_time,
        ) by {
            assert(rest[i] == schedule[i]);
        }
        lemma_slot_reward_nonneg(schedule.last(), last_distributed, block_time);
        if k == schedule.len() {
            assert(schedule.take(k) =~= schedule);
            lemma_distributed_prefix(rest, rest.len() as int, last_distributed, block_time);
            assert(rest.take(rest.len() as int) =~= rest);
        } else {
            lemma_distributed_prefix(rest, k, last_distributed, block_time);
            assert(rest.take(k) =~= schedule.take(k));
        }
    }
}

/// Distributes a pool's rewards up to `block_time`.
pub fn compute_reward(schedule: &Vec<Slot>, pool: Pool, block_time: u64) -> (next: Pool)
    requires
        reward_ready(schedule@, pool, block_time),
    ensures
        next == reward_step(schedule@, pool, block_time),
{
    if pool.total_bond_amount == 0 {
        return Pool { last_distributed: block_time, ..pool };
    }
    let last = pool.last_distributed;
    let mut distributed: u128 = 0;
    let n = schedule.len();
    let mut i: usize = 0;
    while i < n
        invariant
            i <= n,
            n == schedule@.len(),
            pool.total_bond_amount != 0,
            last == pool.last_distributed,
            reward_ready(schedule@, pool, block_time),
            distributed == distributed_amount(schedule@.take(i as int), last, block_time),
        decreases n - i,
    {
        let slot = schedule[i];
        proof {
            let next_prefix = schedule@.take(i + 1);
            assert(next_prefix.drop_last() =~= schedule@.take(i as int));
            assert(next_prefix.last() == slot);
            lemma_distributed_prefix(schedule@, i + 1, last, block_time);
            assert(slot_ready(schedule@[i as int], last, block_time));
            lemma_slot_reward_nonneg(slot, last, block_time);
        }
        if !(slot.0 > block_time || slot.1 < last) {
            let end = if slot.1 <= block_time { slot.1 } else { block_time };
            let start = if slot.0 >= last { slot.0 } else { last };
            let passed_time = end - start;
            let time = slot.1 - slot.0;
            let per_second = decimal_from_ratio(slot.2, time as u128);
            let paid = uint_times_decimal(passed_time as u128, per_second);
            distributed = distributed + paid;
        }
        i = i + 1;
    }
    proof {
        assert(schedule@.take(n as int) =~= schedule@);
    }
    let increase = decimal_from_ratio(distributed, pool.total_bond_amount);
    Pool {
        last_distributed: block_time,
        total_bond_amount: pool.total_bond_amount,
        global_reward_index: pool.global_reward_index + increase,
    }
}

/// Catches a position up with the pool's reward index.
pub fn compute_staker_reward(global_reward_index: u128, stake: Stake) -> (result: Result<
    Stake,
    StakingError,
>)
    requires
        staker_ready(global_reward_index, stake),
    ensures
        result == staker_step(global_reward_index, stake),
{
    let earned = uint_times_decimal(stake.bond_amount, global_reward_index);
    let owed = uint_times_decimal(stake.bond_amount, stake.reward_index);
    match earned.checked_sub(owed) {
        None => Err(StakingError::SubtractionOverflow { minuend: earned, subtrahend: owed }),
        Some(pending_reward) => Ok(
            Stake {
                reward_index: global_reward_index,
                bond_amount: stake.bond_amount,
                pending_reward: stake.pending_reward + pending_reward,
            },
        ),
    }
}

} // verus!
