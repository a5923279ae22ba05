//! The operations of the staking contract, from the state they read to the
//! state they leave and the tokens they pay out.
#![allow(non_snake_case)]

use vstd::prelude::*;

use crate::error::StakingError;
use crate::reward::{
    compute_reward, compute_staker_reward, reward_ready, reward_step, staker_gain, staker_ready,
    staker_step,
};
use crate::msg::{
    staker_info_response, state_response, ConfigResponse, Cw20HookMsg, StakerInfoResponse,
    StateResponse,
};
use crate::schedule::{
    count_occurrences, lemma_migrated_total_bounded, lemma_occurs_at_index, migrate_schedule,
    migrated_schedule, migration_ready, occurrences, schedule_total, total_amount,
};
use crate::state::{Config, Pool, Slot, Stake, StakerInfo, State};

verus! {

/// A pool whose bonded total moved by `amount`.
pub open spec fn pool_bonded(pool: Pool, amount: int) -> Pool {
    Pool { total_bond_amount: (pool.total_bond_amount + amount) as u128, ..pool }
}

/// A position whose bond moved by `amount`.
pub open spec fn stake_bonded(stake: Stake, amount: int) -> Stake {
    Stake { bond_amount: (stake.bond_amount + amount) as u128, ..stake }
}

/// What an operation leaves behind for a staker: the new global state, the
/// staker's new record, whether that record is to be removed rather than
/// stored, and the amount of tokens sent to the staker.
#[derive(Clone, Copy, Debug, PartialEq, Eq)]
pub struct StakeOutcome {
    pub state: State,
    pub staker_info: StakerInfo,
    pub remove_staker_info: bool,
    pub amount: u128,
}

/// Distributes the LUNA pool's rewards up to `block_time`.
pub fn compute_reward_luna(config: &Config, state: &mut State, block_time: u64)
    requires
        reward_ready(config.distribution_schedule@, old(state).luna(), block_time),
    ensures
        *final(state) == old(state).with_luna(
            reward_step(config.distribution_schedule@, old(state).luna(), block_time),
        ),
{
    let pool = compute_reward(&config.distribution_schedule, state.luna_pool(), block_time);
    state.set_luna_pool(pool);
}

/// Distributes the UST pool's rewards up to `block_time`.
pub fn compute_reward_ust(config: &Config, state: &mut State, block_time: u64)
    requires
        reward_ready(config.distribution_schedule@, old(state).ust(), block_time),
    ensures
        *final(state) == old(state).with_ust(
            reward_step(config.distribution_schedule@, old(state).ust(), block_time),
        ),
{
    let pool = compute_reward(&config.distribution_schedule, state.ust_pool(), block_time);
    state.set_ust_pool(pool);
}

/// Moves the staker's LUNA rewards earned since the last catch-up to pending.
pub fn compute_staker_reward_luna(state: &State, staker_info: &mut StakerInfo) -> (result: Result<
    (),
    StakingError,
>)
    requires
        staker_ready(state.global_reward_index_luna, old(staker_info).luna()),
    ensures
        match staker_step(state.global_reward_index_luna, old(staker_info).luna()) {
            Ok(stake) => result is Ok && *final(staker_info) == old(staker_info).with_luna(stake),
            Err(e) => result == Err::<(), StakingError>(e) && *final(staker_info) == *old(
                staker_info,
            ),
        },
{
    match compute_staker_reward(state.global_reward_index_luna, staker_info.luna_stake()) {
        Ok(stake) => {
            staker_info.set_luna_stake(stake);
            Ok(())
        },
        Err(e) => Err(e),
    }
}

/// Moves the staker's UST rewards earned since the last catch-up to pending.
pub fn compute_staker_reward_ust(state: &State, staker_info: &mut StakerInfo) -> (result: Result<
    (),
    StakingError,
>)
    requires
        staker_ready(state.global_reward_index_ust, old(staker_info).ust()),
    ensures
        match staker_step(state.global_reward_index_ust, old(staker_info).ust()) {
            Ok(stake) => result is Ok && *final(staker_info) == old(staker_info).with_ust(stake),
            Err(e) => result == Err::<(), StakingError>(e) && *final(staker_info) == *old(
                staker_info,
            ),
        },
{
    match compute_staker_reward(state.global_reward_index_ust, staker_info.ust_stake()) {
        Ok(stake) => {
            staker_info.set_ust_stake(stake);
            Ok(())
        },
        Err(e) => Err(e),
    }
}

/// Adds `amount` to the bonded total and to the staker's bond, of the LUNA
/// pool when `is_luna` is 1 and of the UST pool otherwise.
pub fn increase_bond_amount(state: &mut State, staker_info: &mut StakerInfo, amount: u128, is_luna: u64)
    requires
        is_luna == 1 ==> old(state).total_bond_amount_luna + amount <= u128::MAX
            && old(staker_info).bond_amount_luna + amount <= u128::MAX,
        is_luna != 1 ==> old(state).total_bond_amount_ust + amount <= u128::MAX
            && old(staker_info).bond_amount_ust + amount <= u128::MAX,
    ensures
        is_luna == 1 ==> *final(state) == old(state).with_luna(
            pool_bonded(old(state).luna(), amount as int),
        ) && *final(staker_info) == old(staker_info).with_luna(
            stake_bonded(old(staker_info).luna(), amount as int),
        ),
        is_luna != 1 ==> *final(state) == old(state).with_ust(
            pool_bonded(old(state).ust(), amount as int),
        ) && *final(staker_info) == old(staker_info).with_ust(
            stake_bonded(old(staker_info).ust(), amount as int),
        ),
{
    if is_luna == 1 {
        state.total_bond_amount_luna = state.total_bond_amount_luna + amount;
        staker_info.bond_amount_luna = staker_info.bond_amount_luna + amount;
    } else {
        state.total_bond_amount_ust = state.total_bond_amount_ust + amount;
        staker_info.bond_amount_ust = staker_info.bond_amount_ust + amount;
    }
}

/// Takes `amount` from the bonded total and then from the staker's bond, of
/// the LUNA pool when `is_luna` is 1 and of the UST pool otherwise; each
/// subtraction is checked, and a failing one stops the operation there.
pub fn decrease_bond_amount(
    state: &mut State,
    staker_info: &mut StakerInfo,
    amount: u128,
    is_luna: u64,
) -> (result: Result<(), StakingError>)
    ensures
        is_luna == 1 ==> if old(state).total_bond_amount_luna < amount {
            &&& result == Err::<(), StakingError>(
                StakingError::SubtractionOverflow {
                    minuend: old(state).total_bond_amount_luna,
                    subtrahend: amount,
                },
            )
            &&& *final(state) == *old(state)
            &&& *final(staker_info) == *old(staker_info)
        } else if old(staker_info).bond_amount_luna < amount {
            &&& result == Err::<(), StakingError>(
                StakingError::SubtractionOverflow {
                    minuend: old(staker_info).bond_amount_luna,
                    subtrahend: amount,
                },
            )
            &&& *final(state) == old(state).with_luna(pool_bonded(old(state).luna(), -amount))
            &&& *final(staker_info) == *old(staker_info)
        } else {
            &&& result is Ok
            &&& *final(state) == old(state).with_luna(pool_bonded(old(state).luna(), -amount))
            &&& *final(staker_info) == old(staker_info).with_luna(
                stake_bonded(old(staker_info).luna(), -amount),
            )
        },
        is_luna != 1 ==> if old(state).total_bond_amount_ust < amount {
            &&& result == Err::<(), StakingError>(
                StakingError::SubtractionOverflow {
                    minuend: old(state).total_bond_amount_ust,
                    subtrahend: amount,
                },
            )
            &&& *final(state) == *old(state)
            &&& *final(staker_info) == *old(staker_info)
        } else if old(staker_info).bond_amount_ust < amount {
            &&& result == Err::<(), StakingError>(
                StakingError::SubtractionOverflow {
                    minuend: old(staker_info).bond_amount_ust,
                    subtrahend: amount,
                },
            )
            &&& *final(state) == old(state).with_ust(pool_bonded(old(state).ust(), -amount))
            &&& *final(staker_info) == *old(staker_info)
        } else {
            &&& result is Ok
            &&& *final(state) == old(state).with_ust(pool_bonded(old(state).ust(), -amount))
            &&& *final(staker_info) == old(staker_info).with_ust(
                stake_bonded(old(staker_info).ust(), -amount),
            )
        },
{
    if is_luna == 1 {
        match state.total_bond_amount_luna.checked_sub(amount) {
            Some(total) => state.total_bond_amount_luna = total,
            None => {
                return Err(
                    StakingError::SubtractionOverflow {
                        minuend: state.total_bond_amount_luna,
                        subtrahend: amount,
                    },
                );
            },
        }
        match staker_info.bond_amount_luna.checked_sub(amount) {
            Some(bond) => staker_info.bond_amount_luna = bond,
            None => {
                return Err(
                    StakingError::SubtractionOverflow {
                        minuend: staker_info.bond_amount_luna,
                        subtrahend: amount,
                    },
                );
            },
        }
    } else {
        match state.total_bond_amount_ust.checked_sub(amount) {
            Some(total) => state.total_bond_amount_ust = total,
            None => {
                return Err(
                    StakingError::SubtractionOverflow {
                        minuend: state.total_bond_amount_ust,
                        subtrahend: amount,
                    },
                );
            },
        }
        match staker_info.bond_amount_ust.checked_sub(amount) {
            Some(bond) => staker_info.bond_amount_ust = bond,
            None => {
                return Err(
                    StakingError::SubtractionOverflow {
                        minuend: staker_info.bond_amount_ust,
                        subtrahend: amount,
                    },
                );
            },
        }
    }
    Ok(())
}

/// A bond of `amount` into a pool: the pool's rewards are distributed up to
/// `block_time`, the position catches up, and both the pool's total and the
/// position's bond grow by `amount`.
pub open spec fn bond_step(
    schedule: Seq<Slot>,
    pool: Pool,
    stake: Stake,
    block_time: u64,
    amount: u128,
) -> Result<(Pool, Stake), StakingError> {
    let pool1 = reward_step(schedule, pool, block_time);
    match staker_step(pool1.global_reward_index, stake) {
        Ok(stake1) => Ok((pool_bonded(pool1, amount as int), stake_bonded(stake1, amount as int))),
        Err(e) => Err(e),
    }
}

/// The inputs on which a bond completes, whether it succeeds or is refused.
pub open spec fn bond_ready(
    schedule: Seq<Slot>,
    pool: Pool,
    stake: Stake,
    block_time: u64,
    amount: u128,
) -> bool {
    let index = reward_step(schedule, pool, block_time).global_reward_index;
    &&& reward_ready(schedule, pool, block_time)
    &&& staker_ready(index, stake)
    &&& staker_gain(index, stake) >= 0 ==> pool.total_bond_amount + amount <= u128::MAX
        && stake.bond_amount + amount <= u128::MAX
}

/// An unbond of `amount` from a pool: refused when the position holds less
/// than `amount`; else rewards are distributed, the position catches up, and
/// both the pool's total and the position's bond shrink by `amount`.
pub open spec fn unbond_step(
    schedule: Seq<Slot>,
    pool: Pool,
    stake: Stake,
    block_time: u64,
    amount: u128,
) -> Result<(Pool, Stake), StakingError> {
    if stake.bond_amount < amount {
        Err(StakingError::CannotUnbondMoreThanBond)
    } else {
        let pool1 = reward_step(schedule, pool, block_time);
        match staker_step(pool1.global_reward_index, stake) {
            Ok(stake1) => if pool1.total_bond_amount < amount {
                Err(
                    StakingError::SubtractionOverflow {
                        minuend: pool1.total_bond_amount,
                        subtrahend: amount,
                    },
                )
            } else {
                Ok((pool_bonded(pool1, -amount), stake_bonded(stake1, -amount)))
            },
            Err(e) => Err(e),
        }
    }
}

/// The inputs on which an unbond completes, whether it succeeds or is refused.
pub open spec fn unbond_ready(
    schedule: Seq<Slot>,
    pool: Pool,
    stake: Stake,
    block_time: u64,
    amount: u128,
) -> bool {
    stake.bond_amount >= amount ==> {
        &&& reward_ready(schedule, pool, block_time)
        &&& staker_ready(reward_step(schedule, pool, block_time).global_reward_index, stake)
    }
}

/// A withdrawal from a pool: rewards are distributed, the position catches
/// up, and its whole pending reward is paid out (the third component).
pub open spec fn withdraw_step(
    schedule: Seq<Slot>,
    pool: Pool,
    stake: Stake,
    block_time: u64,
) -> Result<(Pool, Stake, u128), StakingError> {
    let pool1 = reward_step(schedule, pool, block_time);
    match staker_step(pool1.global_reward_index, stake) {
        Ok(stake1) => Ok((pool1, Stake { pending_reward: 0, ..stake1 }, stake1.pending_reward)),
        Err(e) => Err(e),
    }
}

/// The inputs on which a withdrawal completes, whether it succeeds or is
/// refused.
pub open spec fn withdraw_ready(schedule: Seq<Slot>, pool: Pool, stake: Stake, block_time: u64) -> bool {
    &&& reward_ready(schedule, pool, block_time)
    &&& staker_ready(reward_step(schedule, pool, block_time).global_reward_index, stake)
}

/// Bonds `amount` of LUNA for a staker at `block_time`.
pub fn bondLuna(
    config: &Config,
    state: &State,
    staker_info: &StakerInfo,
    block_time: u64,
    amount: u128,
) -> (result: Result<(State, StakerInfo), StakingError>)
    requires
        bond_ready(config.distribution_schedule@, state.luna(), staker_info.luna(), block_time, amount),
    ensures
        result == match bond_step(
            config.distribution_schedule@,
            state.luna(),
            staker_info.luna(),
            block_time,
            amount,
        ) {
            Ok((pool, stake)) => Ok((state.with_luna(pool), staker_info.with_luna(stake))),
            Err(e) => Err(e),
        },
{
    let mut state = *state;
    let mut staker_info = *staker_info;
    compute_reward_luna(config, &mut state, block_time);
    if let Err(e) = compute_staker_reward_luna(&state, &mut staker_info) {
        return Err(e);
    }
    increase_bond_amount(&mut state, &mut staker_info, amount, 1);
    Ok((state, staker_info))
}

/// Bonds `amount` of UST for a staker at `block_time`.
pub fn bondUst(
    config: &Config,
    state: &State,
    staker_info: &StakerInfo,
    block_time: u64,
    amount: u128,
) -> (result: Result<(State, StakerInfo), StakingError>)
    requires
        bond_ready(config.distribution_schedule@, state.ust(), staker_info.ust(), block_time, amount),
    ensures
        result == match bond_step(
            config.distribution_schedule@,
            state.ust(),
            staker_info.ust(),
            block_time,
            amount,
        ) {
            Ok((pool, stake)) => Ok((state.with_ust(pool), staker_info.with_ust(stake))),
            Err(e) => Err(e),
        },
{
    let mut state = *state;
    let mut staker_info = *staker_info;
    compute_reward_ust(config, &mut state, block_time);
    if let Err(e) = compute_staker_reward_ust(&state, &mut staker_info) {
        return Err(e);
    }
    increase_bond_amount(&mut state, &mut staker_info, amount, 0);
    Ok((state, staker_info))
}

/// Unbonds `amount` of LUNA for a staker at `block_time`; the amount is sent
/// back to the staker, and the record is removed once nothing is bonded or
/// pending.
pub fn unbondLuna(
    config: &Config,
    state: &State,
    staker_info: &StakerInfo,
    block_time: u64,
    amount: u128,
) -> (result: Result<StakeOutcome, StakingError>)
    requires
        unbond_ready(config.distribution_schedule@, state.luna(), staker_info.luna(), block_time, amount),
    ensures
        result == match unbond_step(
            config.distribution_schedule@,
            state.luna(),
            staker_info.luna(),
            block_time,
            amount,
        ) {
            Ok((pool, stake)) => Ok(
                StakeOutcome {
                    state: state.with_luna(pool),
                    staker_info: staker_info.with_luna(stake),
                    remove_staker_info: stake.pending_reward == 0 && stake.bond_amount == 0,
                    amount,
                },
            ),
            Err(e) => Err(e),
        },
{
    let mut state = *state;
    let mut staker_info = *staker_info;
    if staker_info.bond_amount_luna < amount {
        return Err(StakingError::CannotUnbondMoreThanBond);
    }
    compute_reward_luna(config, &mut state, block_time);
    if let Err(e) = compute_staker_reward_luna(&state, &mut staker_info) {
        return Err(e);
    }
    if let Err(e) = decrease_bond_amount(&mut state, &mut staker_info, amount, 1) {
        return Err(e);
    }
    let remove_staker_info = staker_info.pending_reward_luna == 0
        && staker_info.bond_amount_luna == 0;
    Ok(StakeOutcome { state, staker_info, remove_staker_info, amount })
}

/// Unbonds `amount` of UST for a staker at `block_time`; the amount is sent
/// back to the staker, and the record is removed once nothing is bonded or
/// pending.
pub fn unbondUst(
    config: &Config,
    state: &State,
    staker_info: &StakerInfo,
    block_time: u64,
    amount: u128,
) -> (result: Result<StakeOutcome, StakingError>)
    requires
        unbond_ready(config.distribution_schedule@, state.ust(), staker_info.ust(), block_time, amount),
    ensures
        result == match unbond_step(
            config.distribution_schedule@,
            state.ust(),
            staker_info.ust(),
            block_time,
            amount,
        ) {
            Ok((pool, stake)) => Ok(
                StakeOutcome {
                    state: state.with_ust(pool),
                    staker_info: staker_info.with_ust(stake),
                    remove_staker_info: stake.pending_reward == 0 && stake.bond_amount == 0,
                    amount,
                },
            ),
            Err(e) => Err(e),
        },
{
    let mut state = *state;
    let mut staker_info = *staker_info;
    if staker_info.bond_amount_ust < amount {
        return Err(StakingError::CannotUnbondMoreThanBond);
    }
    compute_reward_ust(config, &mut state, block_time);
    if let Err(e) = compute_staker_reward_ust(&state, &mut staker_info) {
        return Err(e);
    }
    if let Err(e) = decrease_bond_amount(&mut state, &mut staker_info, amount, 0) {
        return Err(e);
    }
    let remove_staker_info = staker_info.pending_reward_ust == 0
        && staker_info.bond_amount_ust == 0;
    Ok(StakeOutcome { state, staker_info, remove_staker_info, amount })
}

/// Pays out a staker's pending LUNA rewards at `block_time`; the record is
/// removed when nothing is bonded.
pub fn withdrawLuna(
    config: &Config,
    state: &State,
    staker_info: &StakerInfo,
    block_time: u64,
) -> (result: Result<StakeOutcome, StakingError>)
    requires
        withdraw_ready(config.distribution_schedule@, state.luna(), staker_info.luna(), block_time),
    ensures
        result == match withdraw_step(
            config.distribution_schedule@,
            state.luna(),
            staker_info.luna(),
            block_time,
        ) {
            Ok((pool, stake, paid)) => Ok(
                StakeOutcome {
                    state: state.with_luna(pool),
                    staker_info: staker_info.with_luna(stake),
                    remove_staker_info: stake.bond_amount == 0,
                    amount: paid,
                },
            ),
            Err(e) => Err(e),
        },
{
    let mut state = *state;
    let mut staker_info = *staker_info;
    compute_reward_luna(config, &mut state, block_time);
    if let Err(e) = compute_staker_reward_luna(&state, &mut staker_info) {
        return Err(e);
    }
    let amount = staker_info.pending_reward_luna;
    staker_info.pending_reward_luna = 0;
    let remove_staker_info = staker_info.bond_amount_luna == 0;
    Ok(StakeOutcome { state, staker_info, remove_staker_info, amount })
}

/// Pays out a staker's pending UST rewards at `block_time`; the record is
/// removed when nothing is bonded.
pub fn withdrawUst(
    config: &Config,
    state: &State,
    staker_info: &StakerInfo,
    block_time: u64,
) -> (result: Result<StakeOutcome, StakingError>)
    requires
        withdraw_ready(config.distribution_schedule@, state.ust(), staker_info.ust(), block_time),
    ensures
        result == match withdraw_step(
            config.distribution_schedule@,
            state.ust(),
            staker_info.ust(),
            block_time,
        ) {
            Ok((pool, stake, paid)) => Ok(
                StakeOutcome {
                    state: state.with_ust(pool),
                    staker_info: staker_info.with_ust(stake),
                    remove_staker_info: stake.bond_amount == 0,
                    amount: paid,
                },
            ),
            Err(e) => Err(e),
        },
{
    let mut state = *state;
    let mut staker_info = *staker_info;
    compute_reward_ust(config, &mut state, block_time);
    if let Err(e) = compute_staker_reward_ust(&state, &mut staker_info) {
        return Err(e);
    }
    let amount = staker_info.pending_reward_ust;
    staker_info.pending_reward_ust = 0;
    let remove_staker_info = staker_info.bond_amount_ust == 0;
    Ok(StakeOutcome { state, staker_info, remove_staker_info, amount })
}

/// The configuration and state of a newly instantiated contract: both pools
/// start empty at `block_time`.
pub fn instantiate(
    luna_token: Vec<u8>,
    ust_token: Vec<u8>,
    distribution_schedule: Vec<Slot>,
    block_time: u64,
) -> (result: (Config, State))
    ensures
        result.0 == (Config { luna_token, ust_token, distribution_schedule }),
        result.1 == (State {
            last_distributed_luna: block_time,
            total_bond_amount_luna: 0,
            global_reward_index_luna: 0,
            last_distributed_ust: block_time,
            total_bond_amount_ust: 0,
            global_reward_index_ust: 0,
        }),
{
    (
        Config { luna_token, ust_token, distribution_schedule },
        State {
            last_distributed_luna: block_time,
            total_bond_amount_luna: 0,
            global_reward_index_luna: 0,
            last_distributed_ust: block_time,
            total_bond_amount_ust: 0,
            global_reward_index_ust: 0,
        },
    )
}

/// Whether two canonical addresses are the same.
pub fn same_address(a: &Vec<u8>, b: &Vec<u8>) -> (same: bool)
    ensures
        same == (a@ == b@),
{
    let same = a == b;
    proof {
        if same {
            assert(a@ =~= b@);
        }
    }
    same
}

/// Whether a token transfer of LUNA may bond: its hook must have decoded (to
/// a bond), and the transfer must come from the LUNA token contract.
pub fn receive_cw20_luna(
    config: &Config,
    hook: Option<Cw20HookMsg>,
    token_contract: &Vec<u8>,
) -> (result: Result<(), StakingError>)
    ensures
        result == match hook {
            None => Err(StakingError::DataShouldBeGiven),
            Some(Cw20HookMsg::Bond {}) => if config.luna_token@ == token_contract@ {
                Ok(())
            } else {
                Err(StakingError::Unauthorized)
            },
        },
{
    match hook {
        Some(Cw20HookMsg::Bond {}) => {
            if !same_address(&config.luna_token, token_contract) {
                return Err(StakingError::Unauthorized);
            }
            Ok(())
        },
        None => Err(StakingError::DataShouldBeGiven),
    }
}

/// Whether a token transfer of UST may bond: its hook must have decoded (to
/// a bond), and the transfer must come from the UST token contract.
pub fn receive_cw20_ust(
    config: &Config,
    hook: Option<Cw20HookMsg>,
    token_contract: &Vec<u8>,
) -> (result: Result<(), StakingError>)
    ensures
        result == match hook {
            None => Err(StakingError::DataShouldBeGiven),
            Some(Cw20HookMsg::Bond {}) => if config.ust_token@ == token_contract@ {
                Ok(())
            } else {
                Err(StakingError::Unauthorized)
            },
        },
{
    match hook {
        Some(Cw20HookMsg::Bond {}) => {
            if !same_address(&config.ust_token, token_contract) {
                return Err(StakingError::Unauthorized);
            }
            Ok(())
        },
        None => Err(StakingError::DataShouldBeGiven),
    }
}

/// The verdict on replacing the schedule `current` by `proposed`, given the
/// last LUNA distribution: the proposal may not be shorter, and among the
/// slots that have started it may neither drop nor add a copy of any slot.
pub open spec fn schedule_change_verdict(
    current: Seq<Slot>,
    last_distributed: u64,
    proposed: Seq<Slot>,
) -> Result<(), StakingError> {
    if proposed.len() < current.len() {
        Err(StakingError::ScheduleTooShort)
    } else if exists|slot: Slot|
        #![trigger occurrences(current, slot)]
        slot.0 <= last_distributed && occurrences(current, slot) > occurrences(proposed, slot) {
        Err(StakingError::RemovesStartedDistribution)
    } else if exists|slot: Slot|
        #![trigger occurrences(proposed, slot)]
        slot.0 <= last_distributed && occurrences(proposed, slot) > occurrences(current, slot) {
        Err(StakingError::AddsStartedDistribution)
    } else {
        Ok(())
    }
}

/// Every slot occurs at most `u32::MAX` times in each schedule.
pub open spec fn counts_fit(current: Seq<Slot>, proposed: Seq<Slot>) -> bool {
    forall|slot: Slot|
        #![trigger occurrences(current, slot)]
        #![trigger occurrences(proposed, slot)]
        occurrences(current, slot) <= u32::MAX && occurrences(proposed, slot) <= u32::MAX
}

/// Decides `schedule_change_verdict` on vectors.
fn check_new_schedules(current: &Vec<Slot>, last_distributed: u64, proposed: &Vec<Slot>) -> (result:
    Result<(), StakingError>)
    ensures
        result == schedule_change_verdict(current@, last_distributed, proposed@),
{
    if proposed.len() < current.len() {
        return Err(StakingError::ScheduleTooShort);
    }
    let n = current.len();
    let mut i: usize = 0;
    while i < n
        invariant
            i <= n,
            n == current@.len(),
            proposed@.len() >= current@.len(),
            forall|j: int|
                0 <= j < i && (#[trigger] current@[j]).0 <= last_distributed ==> occurrences(
                    current@,
                    current@[j],
                ) <= occurrences(proposed@, current@[j]),
        decreases n - i,
    {
        let slot = current[i];
        if slot.0 <= last_distributed {
            if count_occurrences(current, slot) > count_occurrences(proposed, slot) {
                assert(slot.0 <= last_distributed && occurrences(current@, slot) > occurrences(
                    proposed@,
                    slot,
                ));
                return Err(StakingError::RemovesStartedDistribution);
            }
        }
        i = i + 1;
    }
    assert forall|slot: Slot| slot.0 <= last_distributed implies #[trigger] occurrences(
        current@,
        slot,
    ) <= occurrences(proposed@, slot) by {
        if occurrences(current@, slot) > occurrences(proposed@, slot) {
            lemma_occurs_at_index(current@, slot);
        }
    }
    let m = proposed.len();
    let mut k: usize = 0;
    while k < m
        invariant
            k <= m,
            m == proposed@.len(),
            proposed@.len() >= current@.len(),
            forall|slot: Slot|
                slot.0 <= last_distributed ==> #[trigger] occurrences(current@, slot)
                    <= occurrences(proposed@, slot),
            forall|j: int|
                0 <= j < k && (#[trigger] proposed@[j]).0 <= last_distributed ==> occurrences(
                    proposed@,
                    proposed@[j],
                ) <= occurrences(current@, proposed@[j]),
        decreases m - k,
    {
        let slot = proposed[k];
        if slot.0 <= last_distributed {
            if count_occurrences(proposed, slot) > count_occurrences(current, slot) {
                assert(slot.0 <= last_distributed && occurrences(proposed@, slot) > occurrences(
                    current@,
                    slot,
                ));
                return Err(StakingError::AddsStartedDistribution);
            }
        }
        k = k + 1;
    }
    assert forall|slot: Slot| slot.0 <= last_distributed implies #[trigger] occurrences(
        proposed@,
        slot,
    ) <= occurrences(current@, slot) by {
        if occurrences(proposed@, slot) > occurrences(current@, slot) {
            lemma_occurs_at_index(proposed@, slot);
        }
    }
    Ok(())
}

/// Checks that a new schedule keeps every slot that has started by the last
/// LUNA distribution, as often as before, and adds none that would already
/// have started.
pub fn assert_new_schedules(config: &Config, state: &State, distribution_schedule: Vec<Slot>) -> (result:
    Result<(), StakingError>)
    requires
        distribution_schedule@.len() >= config.distribution_schedule@.len() ==> counts_fit(
            config.distribution_schedule@,
            distribution_schedule@,
        ),
    ensures
        result == schedule_change_verdict(
            config.distribution_schedule@,
            state.last_distributed_luna,
            distribution_schedule@,
        ),
{
    check_new_schedules(
        &config.distribution_schedule,
        state.last_distributed_luna,
        &distribution_schedule,
    )
}

/// Replaces the schedule: only the governance contract may, and only with a
/// schedule that `assert_new_schedules` accepts.
pub fn update_config(
    config: Config,
    state: &State,
    sender: &Vec<u8>,
    governance: &Vec<u8>,
    distribution_schedule: Vec<Slot>,
) -> (result: Result<Config, StakingError>)
    requires
        sender@ == governance@ && distribution_schedule@.len()
            >= config.distribution_schedule@.len() ==> counts_fit(
            config.distribution_schedule@,
            distribution_schedule@,
        ),
    ensures
        sender@ != governance@ ==> result == Err::<Config, StakingError>(
            StakingError::Unauthorized,
        ),
        sender@ == governance@ ==> match schedule_change_verdict(
            config.distribution_schedule@,
            state.last_distributed_luna,
            distribution_schedule@,
        ) {
            Ok(()) => result == Ok::<Config, StakingError>(
                Config {
                    luna_token: config.luna_token,
                    ust_token: config.ust_token,
                    distribution_schedule,
                },
            ),
            Err(e) => result == Err::<Config, StakingError>(e),
        },
{
    if !same_address(sender, governance) {
        return Err(StakingError::Unauthorized);
    }
    if let Err(e) = check_new_schedules(
        &config.distribution_schedule,
        state.last_distributed_luna,
        &distribution_schedule,
    ) {
        return Err(e);
    }
    Ok(
        Config {
            luna_token: config.luna_token,
            ust_token: config.ust_token,
            distribution_schedule,
        },
    )
}

/// What a migration of the staking leaves behind: the configuration with its
/// schedule cut short, the state with both pools distributed, what the
/// schedule has distributed, and what remains to send to the new contract.
#[derive(Clone, Debug, PartialEq, Eq)]
pub struct Migration {
    pub config: Config,
    pub state: State,
    pub distributed_amount: u128,
    pub remaining_amount: u128,
}

/// Stops distribution at `block_time`: only the governance contract may.
/// Both pools are distributed up to `block_time`; slots not yet started are
/// dropped and running slots end at `block_time`; what the schedule did not
/// distribute remains for the new staking contract.
pub fn migrate_staking(
    config: Config,
    state: &State,
    sender: &Vec<u8>,
    governance: &Vec<u8>,
    block_time: u64,
) -> (result: Result<Migration, StakingError>)
    requires
        sender@ == governance@ ==> {
            &&& reward_ready(config.distribution_schedule@, state.luna(), block_time)
            &&& reward_ready(config.distribution_schedule@, state.ust(), block_time)
            &&& migration_ready(config.distribution_schedule@, block_time)
        },
    ensures
        sender@ != governance@ ==> result == Err::<Migration, StakingError>(
            StakingError::Unauthorized,
        ),
        sender@ == governance@ ==> (result matches Ok(m) && {
            &&& m.config.luna_token == config.luna_token
            &&& m.config.ust_token == config.ust_token
            &&& m.config.distribution_schedule@ == migrated_schedule(
                config.distribution_schedule@,
                block_time,
            )
            &&& m.state == state.with_luna(
                reward_step(config.distribution_schedule@, state.luna(), block_time),
            ).with_ust(reward_step(config.distribution_schedule@, state.ust(), block_time))
            &&& m.distributed_amount == schedule_total(m.config.distribution_schedule@)
            &&& m.remaining_amount == schedule_total(config.distribution_schedule@)
                - m.distributed_amount
        }),
{
    if !same_address(sender, governance) {
        return Err(StakingError::Unauthorized);
    }
    let mut state = *state;
    compute_reward_luna(&config, &mut state, block_time);
    compute_reward_ust(&config, &mut state, block_time);
    let total_distribution_amount = total_amount(&config.distribution_schedule);
    let (distribution_schedule, distributed_amount) = migrate_schedule(
        &config.distribution_schedule,
        block_time,
    );
    proof {
        lemma_migrated_total_bounded(config.distribution_schedule@, block_time);
    }
    let remaining_amount = total_distribution_amount - distributed_amount;
    let config = Config {
        luna_token: config.luna_token,
        ust_token: config.ust_token,
        distribution_schedule,
    };
    Ok(Migration { config, state, distributed_amount, remaining_amount })
}

/// The answer to a configuration query, given the human-readable addresses of
/// the two tokens.
pub fn query_config(config: Config, luna_token: String, ust_token: String) -> (response:
    ConfigResponse)
    ensures
        response == (ConfigResponse {
            luna_token,
            ust_token,
            distribution_schedule: config.distribution_schedule,
        }),
{
    ConfigResponse { luna_token, ust_token, distribution_schedule: config.distribution_schedule }
}

/// The answer to a state query: the stored state, or, given a block time,
/// the state with both pools distributed up to it.
pub fn query_state(config: &Config, state: &State, block_time: Option<u64>) -> (response:
    StateResponse)
    requires
        block_time matches Some(t) ==> reward_ready(config.distribution_schedule@, state.luna(), t)
            && reward_ready(config.distribution_schedule@, state.ust(), t),
    ensures
        response == state_response(
            match block_time {
                Some(t) => state.with_luna(
                    reward_step(config.distribution_schedule@, state.luna(), t),
                ).with_ust(reward_step(config.distribution_schedule@, state.ust(), t)),
                None => *state,
            },
        ),
{
    let mut state = *state;
    if let Some(block_time) = block_time {
        compute_reward_luna(config, &mut state, block_time);
        compute_reward_ust(config, &mut state, block_time);
    }
    StateResponse {
        last_distributed_luna: state.last_distributed_luna,
        total_bond_amount_luna: state.total_bond_amount_luna,
        global_reward_index_luna: state.global_reward_index_luna,
        last_distributed_ust: state.last_distributed_ust,
        total_bond_amount_ust: state.total_bond_amount_ust,
        global_reward_index_ust: state.global_reward_index_ust,
    }
}

/// A staker's record caught up with both pools at `block_time`.
pub open spec fn staker_query_step(
    schedule: Seq<Slot>,
    state: State,
    staker_info: StakerInfo,
    block_time: u64,
) -> Result<StakerInfo, StakingError> {
    let luna = reward_step(schedule, state.luna(), block_time);
    let ust = reward_step(schedule, state.ust(), block_time);
    match staker_step(luna.global_reward_index, staker_info.luna()) {
        Ok(luna_stake) => match staker_step(ust.global_reward_index, staker_info.ust()) {
            Ok(ust_stake) => Ok(staker_info.with_luna(luna_stake).with_ust(ust_stake)),
            Err(e) => Err(e),
        },
        Err(e) => Err(e),
    }
}

/// The inputs on which catching a staker up with both pools completes.
pub open spec fn staker_query_ready(
    schedule: Seq<Slot>,
    state: State,
    staker_info: StakerInfo,
    block_time: u64,
) -> bool {
    let luna = reward_step(schedule, state.luna(), block_time);
    let ust = reward_step(schedule, state.ust(), block_time);
    &&& reward_ready(schedule, state.luna(), block_time)
    &&& staker_ready(luna.global_reward_index, staker_info.luna())
    &&& staker_step(luna.global_reward_index, staker_info.luna()) is Ok ==> {
        &&& reward_ready(schedule, state.ust(), block_time)
        &&& staker_ready(ust.global_reward_index, staker_info.ust())
    }
}

/// The answer to a staker query: the staker's record, or, given a block
/// time, the record caught up with both pools at it.
pub fn query_staker_info(
    config: &Config,
    state: &State,
    staker_info: &StakerInfo,
    staker: String,
    block_time: Option<u64>,
) -> (result: Result<StakerInfoResponse, StakingError>)
    requires
        block_time matches Some(t) ==> staker_query_ready(
            config.distribution_schedule@,
            *state,
            *staker_info,
            t,
        ),
    ensures
        result == match block_time {
            Some(t) => match staker_query_step(
                config.distribution_schedule@,
                *state,
                *staker_info,
                t,
            ) {
                Ok(info) => Ok(staker_info_response(staker, info)),
                Err(e) => Err(e),
            },
            None => Ok(staker_info_response(staker, *staker_info)),
        },
{
    let mut staker_info = *staker_info;
    if let Some(block_time) = block_time {
        let mut state = *state;
        compute_reward_luna(config, &mut state, block_time);
        if let Err(e) = compute_staker_reward_luna(&state, &mut staker_info) {
            return Err(e);
        }
        compute_reward_ust(config, &mut state, block_time);
        if let Err(e) = compute_staker_reward_ust(&state, &mut staker_info) {
            return Err(e);
        }
    }
    Ok(
        StakerInfoResponse {
            staker,
            reward_index_luna: staker_info.reward_index_luna,
            bond_amount_luna: staker_info.bond_amount_luna,
            pending_reward_luna: staker_info.pending_reward_luna,
            reward_index_ust: staker_info.reward_index_ust,
            bond_amount_ust: staker_info.bond_amount_ust,
            pending_reward_ust: staker_info.pending_reward_ust,
        },
    )
}

} // verus!
