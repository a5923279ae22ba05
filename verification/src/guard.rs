//! Executable forms of the conditions under which the operations complete,
//! for callers that Verus does not check: each answers exactly whether the
//! corresponding operation's `requires` holds.
use vstd::prelude::*;

use crate::contract::{
    bond_ready, counts_fit, staker_query_ready, unbond_ready, withdraw_ready,
};
use crate::math::{checked_decimal_from_ratio, checked_uint_times_decimal, ratio};
use crate::reward::{
    compute_reward, compute_staker_reward, distributed_amount, lemma_distributed_prefix,
    reward_ready, slot_ready, staker_ready,
};
use crate::schedule::{
    count_occurrences, lemma_occurs_at_index, lemma_total_prefix, migration_ready, occurrences,
    schedule_total,
};
use crate::state::{Pool, Slot, Stake, StakerInfo, State};

verus! {

/// Whether distributing a pool's rewards up to `block_time` completes.
pub fn can_compute_reward(schedule: &Vec<Slot>, pool: Pool, block_time: u64) -> (ok: bool)
    ensures
        ok == reward_ready(schedule@, pool, block_time),
{
    if pool.total_bond_amount == 0 {
        return true;
    }
    let last = pool.last_distributed;
    let mut distributed: u128 = 0;
    let n = schedule.len();
    let mut i: usize = 0;
    while i < n
        invariant
            i <= n,
            n == schedule@.len(),
            pool.total_bond_amount != 0,
            last == pool.last_distributed,
            forall|j: int| 0 <= j < i ==> slot_ready(#[trigger] schedule@[j], last, block_time),
            distributed == distributed_amount(schedule@.take(i as int), last, block_time),
        decreases n - i,
    {
        let slot = schedule[i];
        proof {
            let next_prefix = schedule@.take(i + 1);
            assert(next_prefix.drop_last() =~= schedule@.take(i as int));
            assert(next_prefix.last() == slot);
        }
        if !(slot.0 > block_time || slot.1 < last) {
            if !(slot.0 < slot.1) {
                assert(!slot_ready(schedule@[i as int], last, block_time));
                return false;
            }
            let end = if slot.1 <= block_time { slot.1 } else { block_time };
            let start = if slot.0 >= last { slot.0 } else { last };
            if start > end {
                assert(!slot_ready(schedule@[i as int], last, block_time));
                return false;
            }
            let per_second = match checked_decimal_from_ratio(slot.2, (slot.1 - slot.0) as u128) {
                Some(rate) => rate,
                None => {
                    assert(!slot_ready(schedule@[i as int], last, block_time));
                    return false;
                },
            };
            let paid = match checked_uint_times_decimal((end - start) as u128, per_second) {
                Some(paid) => paid,
                None => {
                    proof {
                        lemma_overflowing_prefix(schedule@, pool, block_time, i + 1);
                    }
                    return false;
                },
            };
            distributed = match distributed.checked_add(paid) {
                Some(sum) => sum,
                None => {
                    proof {
                        lemma_overflowing_prefix(schedule@, pool, block_time, i + 1);
                    }
                    return false;
                },
            };
        }
        i = i + 1;
    }
    proof {
        assert(schedule@.take(n as int) =~= schedule@);
    }
    match checked_decimal_from_ratio(distributed, pool.total_bond_amount) {
        Some(increase) => pool.global_reward_index.checked_add(increase).is_some(),
        None => false,
    }
}

/// A schedule whose prefix already pays more than fits is not ready.
proof fn lemma_overflowing_prefix(schedule: Seq<Slot>, pool: Pool, block_time: u64, k: int)
    requires
        0 <= k <= schedule.len(),
        pool.total_bond_amount != 0,
        distributed_amount(schedule.take(k), pool.last_distributed, block_time) > u128::MAX,
    ensures
        !reward_ready(schedule, pool, block_time),
{
    if reward_ready(schedule, pool, block_time) {
        lemma_distributed_prefix(schedule, k, pool.last_distributed, block_time);
    }
}

/// Whether catching a position up with the reward index `global_reward_index`
/// completes.
pub fn can_catch_up(global_reward_index: u128, stake: Stake) -> (ok: bool)
    ensures
        ok == staker_ready(global_reward_index, stake),
{
    let earned = match checked_uint_times_decimal(stake.bond_amount, global_reward_index) {
        Some(earned) => earned,
        None => return false,
    };
    let owed = match checked_uint_times_decimal(stake.bond_amount, stake.reward_index) {
        Some(owed) => owed,
        None => return false,
    };
    if earned >= owed {
        stake.pending_reward.checked_add(earned - owed).is_some()
    } else {
        true
    }
}

/// Whether a bond of `amount` completes.
pub fn can_bond(schedule: &Vec<Slot>, pool: Pool, stake: Stake, block_time: u64, amount: u128) -> (ok:
    bool)
    ensures
        ok == bond_ready(schedule@, pool, stake, block_time, amount),
{
    if !can_compute_reward(schedule, pool, block_time) {
        return false;
    }
    let next = compute_reward(schedule, pool, block_time);
    if !can_catch_up(next.global_reward_index, stake) {
        return false;
    }
    match compute_staker_reward(next.global_reward_index, stake) {
        Ok(_) => pool.total_bond_amount.checked_add(amount).is_some()
            && stake.bond_amount.checked_add(amount).is_some(),
        Err(_) => true,
    }
}

/// Whether an unbond of `amount` completes.
pub fn can_unbond(
    schedule: &Vec<Slot>,
    pool: Pool,
    stake: Stake,
    block_time: u64,
    amount: u128,
) -> (ok: bool)
    ensures
        ok == unbond_ready(schedule@, pool, stake, block_time, amount),
{
    if stake.bond_amount < amount {
        return true;
    }
    if !can_compute_reward(schedule, pool, block_time) {
        return false;
    }
    let next = compute_reward(schedule, pool, block_time);
    can_catch_up(next.global_reward_index, stake)
}

/// Whether a withdrawal completes.
pub fn can_withdraw(schedule: &Vec<Slot>, pool: Pool, stake: Stake, block_time: u64) -> (ok: bool)
    ensures
        ok == withdraw_ready(schedule@, pool, stake, block_time),
{
    if !can_compute_reward(schedule, pool, block_time) {
        return false;
    }
    let next = compute_reward(schedule, pool, block_time);
    can_catch_up(next.global_reward_index, stake)
}

/// Whether catching a staker up with both pools at `block_time` completes.
pub fn can_query_staker(
    schedule: &Vec<Slot>,
    state: &State,
    staker_info: &StakerInfo,
    block_time: u64,
) -> (ok: bool)
    ensures
        ok == staker_query_ready(schedule@, *state, *staker_info, block_time),
{
    if !can_compute_reward(schedule, state.luna_pool(), block_time) {
        return false;
    }
    let luna = compute_reward(schedule, state.luna_pool(), block_time);
    if !can_catch_up(luna.global_reward_index, staker_info.luna_stake()) {
        return false;
    }
    match compute_staker_reward(luna.global_reward_index, staker_info.luna_stake()) {
        Ok(_) => {
            if !can_compute_reward(schedule, state.ust_pool(), block_time) {
                return false;
            }
            let ust = compute_reward(schedule, state.ust_pool(), block_time);
            can_catch_up(ust.global_reward_index, staker_info.ust_stake())
        },
        Err(_) => true,
    }
}

/// Whether cutting a schedule short at `block_time` completes.
pub fn can_migrate_schedule(schedule: &Vec<Slot>, block_time: u64) -> (ok: bool)
    ensures
        ok == migration_ready(schedule@, block_time),
{
    let mut total: u128 = 0;
    let n = schedule.len();
    let mut i: usize = 0;
    while i < n
        invariant
            i <= n,
            n == schedule@.len(),
            total == schedule_total(schedule@.take(i as int)),
            forall|j: int|
                0 <= j < i && (#[trigger] schedule@[j]).0 < block_time && block_time
                    <= schedule@[j].1 ==> ratio(schedule@[j].2 as int, schedule@[j].1 - schedule@[j].0)
                    <= u128::MAX,
        decreases n - i,
    {
        let slot = schedule[i];
        proof {
            assert(schedule@.take(i + 1).drop_last() =~= schedule@.take(i as int));
            assert(schedule@.take(i + 1).last() == slot);
        }
        total = match total.checked_add(slot.2) {
            Some(sum) => sum,
            None => {
                proof {
                    lemma_total_prefix(schedule@, i + 1);
                }
                return false;
            },
        };
        if slot.0 < block_time && block_time <= slot.1 {
            if checked_decimal_from_ratio(slot.2, (slot.1 - slot.0) as u128).is_none() {
                assert(schedule@[i as int] == slot);
                return false;
            }
        }
        i = i + 1;
    }
    proof {
        assert(schedule@.take(n as int) =~= schedule@);
    }
    true
}

/// Whether every slot occurs at most `u32::MAX` times in each schedule.
pub fn can_count_schedules(current: &Vec<Slot>, proposed: &Vec<Slot>) -> (ok: bool)
    ensures
        ok == counts_fit(current@, proposed@),
{
    let n = current.len();
    let mut i: usize = 0;
    while i < n
        invariant
            i <= n,
            n == current@.len(),
            forall|j: int|
                0 <= j < i ==> occurrences(current@, #[trigger] current@[j]) <= u32::MAX
                    && occurrences(proposed@, current@[j]) <= u32::MAX,
        decreases n - i,
    {
        let slot = current[i];
        if count_occurrences(current, slot) > 0xffff_ffff || count_occurrences(proposed, slot)
            > 0xffff_ffff {
            return false;
        }
        i = i + 1;
    }
    let m = proposed.len();
    let mut k: usize = 0;
    while k < m
        invariant
            k <= m,
            m == proposed@.len(),
            forall|j: int|
                0 <= j < k ==> occurrences(current@, #[trigger] proposed@[j]) <= u32::MAX
                    && occurrences(proposed@, proposed@[j]) <= u32::MAX,
        decreases m - k,
    {
        let slot = proposed[k];
        if count_occurrences(current, slot) > 0xffff_ffff || count_occurrences(proposed, slot)
            > 0xffff_ffff {
            return false;
        }
        k = k + 1;
    }
    assert forall|slot: Slot|
        occurrences(current@, slot) <= u32::MAX && occurrences(proposed@, slot) <= u32::MAX by {
        if occurrences(current@, slot) > 0 {
            lemma_occurs_at_index(current@, slot);
        }
        if occurrences(proposed@, slot) > 0 {
            lemma_occurs_at_index(proposed@, slot);
        }
    }
    true
}

} // verus!
