//! Properties that hold across the operations of the contract.
use vstd::prelude::*;

use crate::contract::{
    bond_ready, bond_step, schedule_change_verdict, staker_query_ready, staker_query_step,
    unbond_ready, unbond_step, withdraw_ready, withdraw_step,
};
use crate::error::StakingError;
use crate::math::{
    fractional, lemma_ratio_scale_nonneg, lemma_scale_monotone, lemma_scale_zero,
    lemma_scaled_growth_bounded, ratio, scale,
};
use crate::reward::{
    distributed_amount, lemma_distributed_prefix, reward_ready, reward_step, slot_active,
    slot_ready, slot_reward, staker_gain, staker_ready, staker_step,
};
use crate::schedule::{
    lemma_migrated_total_bounded, migrated_schedule, occurrences, schedule_total,
};
use crate::state::{Pool, Slot, Stake, StakerInfo, State};

verus! {

/// Over an empty interval a schedule pays nothing.
pub proof fn lemma_nothing_distributed_at_once(schedule: Seq<Slot>, time: u64)
    ensures
        distributed_amount(schedule, time, time) == 0,
    decreases schedule.len(),
{
    if schedule.len() > 0 {
        lemma_nothing_distributed_at_once(schedule.drop_last(), time);
        let slot = schedule.last();
        if slot_active(slot, time, time) {
            lemma_scale_zero(0, ratio(slot.2 as int, slot.1 - slot.0));
        }
    }
}

/// Distributing rewards never lowers a pool's reward index, keeps its bonded
/// total, and moves its last distribution to the block time.
pub proof fn law_reward_index_grows(schedule: Seq<Slot>, pool: Pool, block_time: u64)
    requires
        reward_ready(schedule, pool, block_time),
    ensures
        reward_step(schedule, pool, block_time).global_reward_index >= pool.global_reward_index,
        reward_step(schedule, pool, block_time).total_bond_amount == pool.total_bond_amount,
        reward_step(schedule, pool, block_time).last_distributed == block_time,
{
    if pool.total_bond_amount != 0 {
        lemma_distributed_prefix(
            schedule,
            schedule.len() as int,
            pool.last_distributed,
            block_time,
        );
        assert(schedule.take(schedule.len() as int) =~= schedule);
        lemma_ratio_scale_nonneg(
            distributed_amount(schedule, pool.last_distributed, block_time),
            pool.total_bond_amount as int,
            0,
            0,
        );
    }
}

/// Distributing a pool's rewards a second time at the same block time changes
/// nothing, and, when time has not gone backwards, the second distribution
/// can be made.
pub proof fn law_reward_idempotent(schedule: Seq<Slot>, pool: Pool, block_time: u64)
    requires
        reward_ready(schedule, pool, block_time),
    ensures
        reward_step(schedule, reward_step(schedule, pool, block_time), block_time) == reward_step(
            schedule,
            pool,
            block_time,
        ),
        pool.last_distributed <= block_time ==> reward_ready(
            schedule,
            reward_step(schedule, pool, block_time),
            block_time,
        ),
{
    let next = reward_step(schedule, pool, block_time);
    lemma_nothing_distributed_at_once(schedule, block_time);
    if next.total_bond_amount != 0 {
        let t = next.total_bond_amount as int;
        assert(0 * fractional() / t == 0) by (nonlinear_arith)
            requires
                t > 0,
        ;
    }
    if pool.last_distributed <= block_time && pool.total_bond_amount != 0 {
        assert forall|i: int| 0 <= i < schedule.len() implies slot_ready(
            #[trigger] schedule[i],
            block_time,
            block_time,
        ) by {
            assert(slot_ready(schedule[i], pool.last_distributed, block_time));
        }
        law_reward_index_grows(schedule, pool, block_time);
    }
}

/// A position whose index does not exceed the pool's always catches up: the
/// gain is never negative.
pub proof fn law_catch_up_succeeds(global_reward_index: u128, stake: Stake)
    requires
        stake.reward_index <= global_reward_index,
    ensures
        staker_gain(global_reward_index, stake) >= 0,
        staker_step(global_reward_index, stake) is Ok,
{
    lemma_scale_monotone(
        stake.bond_amount as int,
        stake.reward_index as int,
        global_reward_index as int,
    );
}

/// Catching a position up twice with the same index changes nothing the
/// second time.
pub proof fn law_catch_up_idempotent(global_reward_index: u128, stake: Stake)
    requires
        staker_ready(global_reward_index, stake),
        staker_step(global_reward_index, stake) is Ok,
    ensures
        staker_step(global_reward_index, staker_step(global_reward_index, stake)->Ok_0) == staker_step(
            global_reward_index,
            stake,
        ),
        staker_ready(global_reward_index, staker_step(global_reward_index, stake)->Ok_0),
{
}

/// A position is consistent with its pool when it holds no more than the
/// pool's bonded total and its reward index does not exceed the pool's.
pub open spec fn position_consistent(pool: Pool, stake: Stake) -> bool {
    &&& stake.bond_amount <= pool.total_bond_amount
    &&& stake.reward_index <= pool.global_reward_index
}

/// From a consistent position, a bond always succeeds, moves the pool's total
/// and the position's bond by the same amount (so what the other positions
/// hold is untouched), and leaves the position consistent.
pub proof fn law_bond_keeps_consistency(
    schedule: Seq<Slot>,
    pool: Pool,
    stake: Stake,
    block_time: u64,
    amount: u128,
)
    requires
        position_consistent(pool, stake),
        bond_ready(schedule, pool, stake, block_time, amount),
    ensures
        bond_step(schedule, pool, stake, block_time, amount) matches Ok((p, s)) && {
            &&& position_consistent(p, s)
            &&& s.bond_amount == stake.bond_amount + amount
            &&& p.total_bond_amount - s.bond_amount == pool.total_bond_amount - stake.bond_amount
        },
{
    law_reward_index_grows(schedule, pool, block_time);
    law_catch_up_succeeds(reward_step(schedule, pool, block_time).global_reward_index, stake);
}

/// From a consistent position, an unbond fails exactly when it asks for more
/// than the position holds; otherwise it moves the pool's total and the
/// position's bond by the same amount and leaves the position consistent.
pub proof fn law_unbond_keeps_consistency(
    schedule: Seq<Slot>,
    pool: Pool,
    stake: Stake,
    block_time: u64,
    amount: u128,
)
    requires
        position_consistent(pool, stake),
        unbond_ready(schedule, pool, stake, block_time, amount),
    ensures
        stake.bond_amount < amount ==> unbond_step(schedule, pool, stake, block_time, amount)
            == Err::<(Pool, Stake), StakingError>(
            StakingError::CannotUnbondMoreThanBond,
        ),
        stake.bond_amount >= amount ==> (unbond_step(
            schedule,
            pool,
            stake,
            block_time,
            amount,
        ) matches Ok((p, s)) && {
            &&& position_consistent(p, s)
            &&& s.bond_amount == stake.bond_amount - amount
            &&& p.total_bond_amount - s.bond_amount == pool.total_bond_amount - stake.bond_amount
        }),
{
    if stake.bond_amount >= amount {
        law_reward_index_grows(schedule, pool, block_time);
        law_catch_up_succeeds(reward_step(schedule, pool, block_time).global_reward_index, stake);
    }
}

/// From a consistent position, a withdrawal always succeeds, pays the whole
/// pending reward including what accrued, leaves all bonds as they were, and
/// leaves the position consistent with nothing pending.
pub proof fn law_withdraw_keeps_consistency(
    schedule: Seq<Slot>,
    pool: Pool,
    stake: Stake,
    block_time: u64,
)
    requires
        position_consistent(pool, stake),
        withdraw_ready(schedule, pool, stake, block_time),
    ensures
        withdraw_step(schedule, pool, stake, block_time) matches Ok((p, s, paid)) && {
            &&& position_consistent(p, s)
            &&& s.pending_reward == 0
            &&& s.bond_amount == stake.bond_amount
            &&& p.total_bond_amount == pool.total_bond_amount
            &&& paid == stake.pending_reward + staker_gain(
                reward_step(schedule, pool, block_time).global_reward_index,
                stake,
            )
        },
{
    law_reward_index_grows(schedule, pool, block_time);
    law_catch_up_succeeds(reward_step(schedule, pool, block_time).global_reward_index, stake);
}

/// Bonding an amount and then unbonding it at the same block time gives back
/// the pool's total and the position's bond, and keeps the reward index and
/// the pending reward reached by the bond.
pub proof fn law_bond_then_unbond(
    schedule: Seq<Slot>,
    pool: Pool,
    stake: Stake,
    block_time: u64,
    amount: u128,
)
    requires
        bond_ready(schedule, pool, stake, block_time, amount),
        bond_step(schedule, pool, stake, block_time, amount) is Ok,
    ensures
        ({
            let (p1, s1) = bond_step(schedule, pool, stake, block_time, amount)->Ok_0;
            unbond_step(schedule, p1, s1, block_time, amount) matches Ok((p2, s2)) && {
                &&& p2.total_bond_amount == pool.total_bond_amount
                &&& p2.global_reward_index == p1.global_reward_index
                &&& p2.last_distributed == block_time
                &&& s2.bond_amount == stake.bond_amount
                &&& s2.pending_reward == s1.pending_reward
                &&& s2.reward_index == s1.reward_index
            }
        }),
{
    let (p1, s1) = bond_step(schedule, pool, stake, block_time, amount)->Ok_0;
    law_reward_idempotent_values(schedule, p1, block_time);
    lemma_scale_zero(0, 0);
}

/// Distributing over an empty interval leaves the reward index unchanged.
pub proof fn law_reward_idempotent_values(schedule: Seq<Slot>, pool: Pool, block_time: u64)
    requires
        pool.last_distributed == block_time,
    ensures
        reward_step(schedule, pool, block_time) == pool,
{
    lemma_nothing_distributed_at_once(schedule, block_time);
    if pool.total_bond_amount != 0 {
        let t = pool.total_bond_amount as int;
        assert(0 * fractional() / t == 0) by (nonlinear_arith)
            requires
                t > 0,
        ;
    }
}

/// A second withdrawal at the same block time pays nothing and changes
/// nothing.
pub proof fn law_withdraw_twice_pays_nothing(
    schedule: Seq<Slot>,
    pool: Pool,
    stake: Stake,
    block_time: u64,
)
    requires
        withdraw_ready(schedule, pool, stake, block_time),
        withdraw_step(schedule, pool, stake, block_time) is Ok,
    ensures
        ({
            let (p1, s1, paid) = withdraw_step(schedule, pool, stake, block_time)->Ok_0;
            withdraw_step(schedule, p1, s1, block_time) == Ok::<
                (Pool, Stake, u128),
                StakingError,
            >((p1, s1, 0))
        }),
{
    let (p1, s1, paid) = withdraw_step(schedule, pool, stake, block_time)->Ok_0;
    law_reward_idempotent_values(schedule, p1, block_time);
}

/// Keeping the schedule as it is always passes the schedule check.
pub proof fn law_unchanged_schedule_accepted(schedule: Seq<Slot>, last_distributed: u64)
    ensures
        schedule_change_verdict(schedule, last_distributed, schedule) == Ok::<
            (),
            StakingError,
        >(()),
{
}

/// Appending a slot that starts after the last distribution always passes the
/// schedule check.
pub proof fn law_future_slot_accepted(schedule: Seq<Slot>, last_distributed: u64, slot: Slot)
    requires
        slot.0 > last_distributed,
    ensures
        schedule_change_verdict(schedule, last_distributed, schedule.push(slot)) == Ok::<
            (),
            StakingError,
        >(()),
{
    let proposed = schedule.push(slot);
    assert(proposed.drop_last() =~= schedule);
    assert forall|s: Slot| s.0 <= last_distributed implies #[trigger] occurrences(proposed, s)
        == occurrences(schedule, s) by {
        assert(proposed.last() == slot);
    }
}

/// Every slot of a schedule cut short at `block_time` started before it and
/// ends no later than it.
pub proof fn law_migrated_slots_end_by(schedule: Seq<Slot>, block_time: u64)
    ensures
        forall|i: int|
            0 <= i < migrated_schedule(schedule, block_time).len() ==> {
                &&& (#[trigger] migrated_schedule(schedule, block_time)[i]).0 < block_time
                &&& migrated_schedule(schedule, block_time)[i].1 <= block_time
            },
    decreases schedule.len(),
{
    if schedule.len() > 0 {
        let rest = migrated_schedule(schedule.drop_last(), block_time);
        let migrated = migrated_schedule(schedule, block_time);
        law_migrated_slots_end_by(schedule.drop_last(), block_time);
        assert forall|i: int| 0 <= i < migrated.len() implies {
            &&& (#[trigger] migrated[i]).0 < block_time
            &&& migrated[i].1 <= block_time
        } by {
            if i < rest.len() {
                assert(migrated[i] == rest[i]);
            }
        }
    }
}

/// Once a schedule is cut short at `block_time`, it pays nothing for any time
/// after `block_time`: migration stops the distribution.
pub proof fn law_migration_stops_distribution(schedule: Seq<Slot>, block_time: u64, later: u64)
    requires
        block_time <= later,
    ensures
        distributed_amount(migrated_schedule(schedule, block_time), block_time, later) == 0,
    decreases schedule.len(),
{
    let migrated = migrated_schedule(schedule, block_time);
    law_migrated_slots_end_by(schedule, block_time);
    if schedule.len() > 0 {
        let rest = schedule.drop_last();
        law_migration_stops_distribution(rest, block_time, later);
        if schedule.last().0 < block_time {
            assert(migrated.drop_last() =~= migrated_schedule(rest, block_time));
            let slot = migrated.last();
            assert(slot == migrated[migrated.len() - 1]);
            if slot_active(slot, block_time, later) {
                lemma_scale_zero(0, ratio(slot.2 as int, slot.1 - slot.0));
            }
        }
    }
}

/// Cutting a schedule short never raises its total, so what remains for the
/// new contract is never negative.
pub proof fn law_migration_keeps_within_total(schedule: Seq<Slot>, block_time: u64)
    ensures
        0 <= schedule_total(migrated_schedule(schedule, block_time)) <= schedule_total(schedule),
{
    lemma_migrated_total_bounded(schedule, block_time);
}

/// A caught-up position that holds at most the pool's bonded total never
/// earns, from one distribution, more than the schedule paid the pool.
pub proof fn law_position_never_overpaid(
    schedule: Seq<Slot>,
    pool: Pool,
    stake: Stake,
    block_time: u64,
)
    requires
        reward_ready(schedule, pool, block_time),
        position_consistent(pool, stake),
        stake.reward_index == pool.global_reward_index,
        pool.total_bond_amount != 0,
    ensures
        staker_gain(reward_step(schedule, pool, block_time).global_reward_index, stake)
            <= distributed_amount(schedule, pool.last_distributed, block_time),
{
    lemma_distributed_prefix(
        schedule,
        schedule.len() as int,
        pool.last_distributed,
        block_time,
    );
    assert(schedule.take(schedule.len() as int) =~= schedule);
    lemma_scaled_growth_bounded(
        stake.bond_amount as int,
        pool.total_bond_amount as int,
        pool.global_reward_index as int,
        distributed_amount(schedule, pool.last_distributed, block_time),
    );
}

/// What a position earns between its own reward index and the pool's
/// `index`, with each product rounded down.
pub open spec fn earned_between(stake: Stake, index: u128) -> int {
    scale(stake.bond_amount as int, index as int) - scale(
        stake.bond_amount as int,
        stake.reward_index as int,
    )
}

/// A bond never loses accrued rewards: it succeeds exactly when the position's
/// earnings since its own index are not negative, and then the position's
/// pending reward grows by those earnings, its index becomes the pool's index
/// distributed up to the block time, and both the bond and the pool's total
/// grow by the amount.
pub proof fn law_bond_keeps_accrued_rewards(
    schedule: Seq<Slot>,
    pool: Pool,
    stake: Stake,
    block_time: u64,
    amount: u128,
)
    requires
        bond_ready(schedule, pool, stake, block_time, amount),
    ensures
        (bond_step(schedule, pool, stake, block_time, amount) is Ok) == (earned_between(
            stake,
            reward_step(schedule, pool, block_time).global_reward_index,
        ) >= 0),
        bond_step(schedule, pool, stake, block_time, amount) matches Ok((p, s)) ==> {
            let index = reward_step(schedule, pool, block_time).global_reward_index;
            &&& s.pending_reward == stake.pending_reward + earned_between(stake, index)
            &&& s.reward_index == index
            &&& s.bond_amount == stake.bond_amount + amount
            &&& p.global_reward_index == index
            &&& p.last_distributed == block_time
            &&& p.total_bond_amount == pool.total_bond_amount + amount
        },
{
}

/// An unbond that succeeds leaves the position caught up: its pending reward
/// grows by its earnings, its index becomes the distributed pool index, and
/// the bond and the pool's total shrink by the amount; so a withdrawal right
/// after, at the same block time, pays exactly the pending reward the unbond
/// left and changes nothing else.
pub proof fn law_unbond_catches_up(
    schedule: Seq<Slot>,
    pool: Pool,
    stake: Stake,
    block_time: u64,
    amount: u128,
)
    requires
        unbond_ready(schedule, pool, stake, block_time, amount),
    ensures
        unbond_step(schedule, pool, stake, block_time, amount) matches Ok((p, s)) ==> {
            let index = reward_step(schedule, pool, block_time).global_reward_index;
            &&& s.pending_reward == stake.pending_reward + earned_between(stake, index)
            &&& s.reward_index == index
            &&& s.bond_amount == stake.bond_amount - amount
            &&& p.global_reward_index == index
            &&& p.last_distributed == block_time
            &&& p.total_bond_amount == pool.total_bond_amount - amount
            &&& withdraw_step(schedule, p, s, block_time) == Ok::<
                (Pool, Stake, u128),
                StakingError,
            >((p, Stake { pending_reward: 0, ..s }, s.pending_reward))
        },
{
    if unbond_step(schedule, pool, stake, block_time, amount) is Ok {
        let (p, s) = unbond_step(schedule, pool, stake, block_time, amount)->Ok_0;
        law_reward_idempotent_values(schedule, p, block_time);
    }
}

/// A withdrawal leaves the pool exactly as a distribution up to the block time
/// does (as a bond, an unbond or a state query at that time would), pays the
/// pending reward plus the earnings since the position's own index, and
/// leaves the position caught up with that index and nothing pending.
pub proof fn law_withdraw_distributes(
    schedule: Seq<Slot>,
    pool: Pool,
    stake: Stake,
    block_time: u64,
)
    requires
        withdraw_ready(schedule, pool, stake, block_time),
    ensures
        (withdraw_step(schedule, pool, stake, block_time) is Ok) == (earned_between(
            stake,
            reward_step(schedule, pool, block_time).global_reward_index,
        ) >= 0),
        withdraw_step(schedule, pool, stake, block_time) matches Ok((p, s, paid)) ==> {
            &&& p == reward_step(schedule, pool, block_time)
            &&& s.reward_index == p.global_reward_index
            &&& paid == stake.pending_reward + earned_between(stake, p.global_reward_index)
            &&& s.pending_reward == 0
            &&& s.bond_amount == stake.bond_amount
        },
{
}

/// A staker query at a block time reports both positions caught up with their
/// pools distributed up to that time: each position's pending reward grows
/// by its earnings and its index becomes its pool's, its bond unchanged; the
/// query fails only when one of those earnings is negative.
pub proof fn law_staker_query_catches_up_both(
    schedule: Seq<Slot>,
    state: State,
    staker_info: StakerInfo,
    block_time: u64,
)
    requires
        staker_query_ready(schedule, state, staker_info, block_time),
    ensures
        ({
            let luna = reward_step(schedule, state.luna(), block_time).global_reward_index;
            let ust = reward_step(schedule, state.ust(), block_time).global_reward_index;
            (staker_query_step(schedule, state, staker_info, block_time) is Ok) == (
            earned_between(staker_info.luna(), luna) >= 0 && earned_between(
                staker_info.ust(),
                ust,
            ) >= 0)
        }),
        staker_query_step(schedule, state, staker_info, block_time) matches Ok(info) ==> {
            let luna = reward_step(schedule, state.luna(), block_time).global_reward_index;
            let ust = reward_step(schedule, state.ust(), block_time).global_reward_index;
            &&& info.pending_reward_luna == staker_info.pending_reward_luna + earned_between(
                staker_info.luna(),
                luna,
            )
            &&& info.reward_index_luna == luna
            &&& info.bond_amount_luna == staker_info.bond_amount_luna
            &&& info.pending_reward_ust == staker_info.pending_reward_ust + earned_between(
                staker_info.ust(),
                ust,
            )
            &&& info.reward_index_ust == ust
            &&& info.bond_amount_ust == staker_info.bond_amount_ust
        },
{
}

/// A proposal that is not shorter but holds fewer copies of some slot of the
/// current schedule that has started by the last distribution is refused as
/// removing a started distribution, whatever that slot's end.
pub proof fn law_dropping_started_slot_refused(
    current: Seq<Slot>,
    last_distributed: u64,
    proposed: Seq<Slot>,
    i: int,
)
    requires
        proposed.len() >= current.len(),
        0 <= i < current.len(),
        current[i].0 <= last_distributed,
        occurrences(proposed, current[i]) < occurrences(current, current[i]),
    ensures
        schedule_change_verdict(current, last_distributed, proposed) == Err::<(), StakingError>(
            StakingError::RemovesStartedDistribution,
        ),
{
}

/// A proposal that is not shorter, keeps every started slot at least as often,
/// but holds more copies of some slot that has started by the last
/// distribution is refused as adding a started distribution.
pub proof fn law_adding_started_slot_refused(
    current: Seq<Slot>,
    last_distributed: u64,
    proposed: Seq<Slot>,
    slot: Slot,
)
    requires
        proposed.len() >= current.len(),
        forall|s: Slot|
            s.0 <= last_distributed ==> #[trigger] occurrences(current, s) <= occurrences(
                proposed,
                s,
            ),
        slot.0 <= last_distributed,
        occurrences(proposed, slot) > occurrences(current, slot),
    ensures
        schedule_change_verdict(current, last_distributed, proposed) == Err::<(), StakingError>(
            StakingError::AddsStartedDistribution,
        ),
{
}

/// A proposal that is not shorter and holds every slot that has started by the
/// last distribution exactly as often as the current schedule is accepted.
pub proof fn law_same_started_slots_accepted(
    current: Seq<Slot>,
    last_distributed: u64,
    proposed: Seq<Slot>,
)
    requires
        proposed.len() >= current.len(),
        forall|s: Slot|
            s.0 <= last_distributed ==> #[trigger] occurrences(current, s) == occurrences(
                proposed,
                s,
            ),
    ensures
        schedule_change_verdict(current, last_distributed, proposed) == Ok::<(), StakingError>(()),
{
}

/// An unbond is refused as asking too much exactly when the position holds
/// less than the amount; otherwise it succeeds exactly when the position's
/// earnings are not negative and the distributed pool still holds the amount.
pub proof fn law_unbond_refusals(
    schedule: Seq<Slot>,
    pool: Pool,
    stake: Stake,
    block_time: u64,
    amount: u128,
)
    requires
        unbond_ready(schedule, pool, stake, block_time, amount),
    ensures
        (unbond_step(schedule, pool, stake, block_time, amount) == Err::<(Pool, Stake), StakingError>(
            StakingError::CannotUnbondMoreThanBond,
        )) == (stake.bond_amount < amount),
        stake.bond_amount >= amount ==> (unbond_step(schedule, pool, stake, block_time, amount) is Ok)
            == (earned_between(stake, reward_step(schedule, pool, block_time).global_reward_index)
            >= 0 && pool.total_bond_amount >= amount),
{
}

/// A proposal shorter than the current schedule is refused as too short.
pub proof fn law_shorter_schedule_refused(
    current: Seq<Slot>,
    last_distributed: u64,
    proposed: Seq<Slot>,
)
    requires
        proposed.len() < current.len(),
    ensures
        schedule_change_verdict(current, last_distributed, proposed) == Err::<(), StakingError>(
            StakingError::ScheduleTooShort,
        ),
{
}

/// Migration treats each slot on its own: a slot that has not started by the
/// block time is dropped, one that has ended is kept whole, and one still
/// running ends at the block time keeping exactly what a distribution from its
/// start up to the block time pays for it.
pub proof fn law_migration_per_slot(slot: Slot, block_time: u64)
    ensures
        slot.0 >= block_time ==> migrated_schedule(seq![slot], block_time) =~= Seq::<Slot>::empty(),
        slot.0 < block_time && slot.1 < block_time ==> migrated_schedule(seq![slot], block_time)
            =~= seq![slot],
        slot.0 < block_time && block_time <= slot.1 ==> migrated_schedule(seq![slot], block_time)
            =~= seq![(slot.0, block_time, slot_reward(slot, slot.0, block_time) as u128)],
{
    let single = seq![slot];
    assert(single.drop_last() =~= Seq::<Slot>::empty());
    assert(single.last() == slot);
    assert(migrated_schedule(Seq::<Slot>::empty(), block_time) =~= Seq::<Slot>::empty());
    assert(migrated_schedule(single, block_time) == if slot.0 < block_time {
        Seq::<Slot>::empty().push(crate::schedule::migrated_slot(slot, block_time))
    } else {
        Seq::<Slot>::empty()
    });
}

/// Migration keeps the order of the slots: cutting short a schedule with one
/// more slot appends that slot's cut to the cut of the rest.
pub proof fn law_migration_in_order(schedule: Seq<Slot>, slot: Slot, block_time: u64)
    ensures
        migrated_schedule(schedule.push(slot), block_time) =~= migrated_schedule(
            schedule,
            block_time,
        ) + migrated_schedule(seq![slot], block_time),
{
    assert(schedule.push(slot).drop_last() =~= schedule);
    assert(seq![slot].drop_last() =~= Seq::<Slot>::empty());
    law_migration_per_slot(slot, block_time);
}

} // verus!
