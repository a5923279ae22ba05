use anchor_staking::contract::{
    assert_new_schedules, bondLuna, bondUst, compute_reward_luna, compute_reward_ust,
    compute_staker_reward_luna, decrease_bond_amount, increase_bond_amount, instantiate,
    migrate_staking, query_config, query_staker_info, query_state, receive_cw20_luna,
    receive_cw20_ust, same_address, unbondLuna, unbondUst, update_config, withdrawLuna,
    withdrawUst,
};
use anchor_staking::error::StakingError;
use anchor_staking::msg::Cw20HookMsg;
use anchor_staking::reward::{compute_reward, compute_staker_reward};
use anchor_staking::schedule::{count_occurrences, migrate_schedule, total_amount};
use anchor_staking::state::{read_staker_info, Config, Pool, Slot, Stake, StakerInfo, State};

const ONE: u128 = 1_000_000_000_000_000_000;

fn luna_addr() -> Vec<u8> {
    vec![1, 2, 3]
}

fn ust_addr() -> Vec<u8> {
    vec![4, 5, 6]
}

fn gov_addr() -> Vec<u8> {
    vec![9, 9]
}

fn setup(schedule: Vec<Slot>, block_time: u64) -> (Config, State) {
    instantiate(luna_addr(), ust_addr(), schedule, block_time)
}

fn empty_staker() -> StakerInfo {
    read_staker_info(None)
}

#[test]
fn instantiate_starts_empty_pools() {
    let (config, state) = setup(vec![(100, 200, 1_000_000)], 100);
    assert_eq!(config.luna_token, luna_addr());
    assert_eq!(config.ust_token, ust_addr());
    assert_eq!(config.distribution_schedule, vec![(100, 200, 1_000_000)]);
    assert_eq!(
        state,
        State {
            last_distributed_luna: 100,
            total_bond_amount_luna: 0,
            global_reward_index_luna: 0,
            last_distributed_ust: 100,
            total_bond_amount_ust: 0,
            global_reward_index_ust: 0,
        }
    );
}

#[test]
fn read_staker_info_defaults_to_empty_record() {
    let info = empty_staker();
    assert_eq!(
        info,
        StakerInfo {
            reward_index_luna: 0,
            bond_amount_luna: 0,
            pending_reward_luna: 0,
            reward_index_ust: 0,
            bond_amount_ust: 0,
            pending_reward_ust: 0,
        }
    );
    let mut stored = info;
    stored.bond_amount_ust = 7;
    assert_eq!(read_staker_info(Some(stored)), stored);
}

#[test]
fn bond_then_rewards_accrue_linearly() {
    let (config, state) = setup(vec![(100, 200, 1_000_000)], 100);
    let (state, info) = bondLuna(&config, &state, &empty_staker(), 100, 100).unwrap();
    assert_eq!(state.total_bond_amount_luna, 100);
    assert_eq!(info.bond_amount_luna, 100);
    assert_eq!(state.global_reward_index_luna, 0);

    let response = query_state(&config, &state, Some(150));
    // 50 of 100 seconds of a 1_000_000 slot: 500_000 over 100 bonded.
    assert_eq!(response.global_reward_index_luna, 5_000 * ONE);
    assert_eq!(response.last_distributed_luna, 150);
    assert_eq!(response.last_distributed_ust, 150);
    assert_eq!(response.global_reward_index_ust, 0);

    let staker =
        query_staker_info(&config, &state, &info, "staker".to_string(), Some(150)).unwrap();
    assert_eq!(staker.staker, "staker");
    assert_eq!(staker.pending_reward_luna, 500_000);
    assert_eq!(staker.reward_index_luna, 5_000 * ONE);
    assert_eq!(staker.pending_reward_ust, 0);

    let unchanged = query_staker_info(&config, &state, &info, "staker".to_string(), None).unwrap();
    assert_eq!(unchanged.pending_reward_luna, 0);
    assert_eq!(unchanged.bond_amount_luna, 100);
}

#[test]
fn query_state_without_time_reports_stored_state() {
    let (config, state) = setup(vec![(100, 200, 1_000_000)], 100);
    let (state, _) = bondUst(&config, &state, &empty_staker(), 100, 10).unwrap();
    let response = query_state(&config, &state, None);
    assert_eq!(response.total_bond_amount_ust, 10);
    assert_eq!(response.last_distributed_ust, 100);
    assert_eq!(response.global_reward_index_ust, 0);
}

#[test]
fn rewards_round_down() {
    // 10 tokens over 3 seconds: the rate is rounded down, then the payout.
    let schedule = vec![(0, 3, 10)];
    let pool = Pool { last_distributed: 0, total_bond_amount: 3, global_reward_index: 0 };
    let next = compute_reward(&schedule, pool, 1);
    // rate 3.333.. per second, one second pays 3, over 3 bonded: index 1.0
    assert_eq!(next.global_reward_index, ONE);
    assert_eq!(next.last_distributed, 1);
    let stake = Stake { reward_index: 0, bond_amount: 3, pending_reward: 0 };
    let caught_up = compute_staker_reward(next.global_reward_index, stake).unwrap();
    assert_eq!(caught_up.pending_reward, 3);
    assert_eq!(caught_up.reward_index, ONE);
}

#[test]
fn reward_skips_slots_outside_the_interval() {
    let schedule = vec![(0, 10, 100), (50, 60, 1000), (20, 30, 300)];
    let pool = Pool { last_distributed: 15, total_bond_amount: 1, global_reward_index: 0 };
    // Only the slot from 20 to 30 overlaps 15..25: 5 seconds at 30 per second.
    let next = compute_reward(&schedule, pool, 25);
    assert_eq!(next.global_reward_index, 150 * ONE);
}

#[test]
fn reward_with_nothing_bonded_only_moves_time() {
    let schedule = vec![(0, 10, 100)];
    let pool = Pool { last_distributed: 0, total_bond_amount: 0, global_reward_index: 7 };
    let next = compute_reward(&schedule, pool, 5);
    assert_eq!(next, Pool { last_distributed: 5, total_bond_amount: 0, global_reward_index: 7 });
}

#[test]
fn compute_reward_per_pool() {
    let (config, mut state) = setup(vec![(0, 100, 1000)], 0);
    state.total_bond_amount_luna = 10;
    state.total_bond_amount_ust = 20;
    compute_reward_luna(&config, &mut state, 10);
    assert_eq!(state.global_reward_index_luna, 10 * ONE);
    assert_eq!(state.last_distributed_luna, 10);
    assert_eq!(state.last_distributed_ust, 0);
    compute_reward_ust(&config, &mut state, 10);
    assert_eq!(state.global_reward_index_ust, 5 * ONE);
}

#[test]
fn reward_twice_at_same_time_changes_nothing() {
    let schedule = vec![(0, 100, 1000)];
    let pool = Pool { last_distributed: 0, total_bond_amount: 7, global_reward_index: 0 };
    let once = compute_reward(&schedule, pool, 40);
    let twice = compute_reward(&schedule, once, 40);
    assert_eq!(once, twice);
    assert!(once.global_reward_index >= pool.global_reward_index);
}

#[test]
fn catch_up_twice_changes_nothing() {
    let stake = Stake { reward_index: ONE, bond_amount: 5, pending_reward: 2 };
    let once = compute_staker_reward(3 * ONE, stake).unwrap();
    assert_eq!(once, Stake { reward_index: 3 * ONE, bond_amount: 5, pending_reward: 12 });
    assert_eq!(compute_staker_reward(3 * ONE, once).unwrap(), once);
}

#[test]
fn catch_up_refused_when_index_ahead_of_pool() {
    let stake = Stake { reward_index: 2 * ONE, bond_amount: 5, pending_reward: 0 };
    assert_eq!(
        compute_staker_reward(ONE, stake),
        Err(StakingError::SubtractionOverflow { minuend: 5, subtrahend: 10 })
    );
    let state = State {
        last_distributed_luna: 0,
        total_bond_amount_luna: 5,
        global_reward_index_luna: ONE,
        last_distributed_ust: 0,
        total_bond_amount_ust: 0,
        global_reward_index_ust: 0,
    };
    let mut info = empty_staker();
    info.reward_index_luna = 2 * ONE;
    info.bond_amount_luna = 5;
    let before = info;
    assert_eq!(
        compute_staker_reward_luna(&state, &mut info),
        Err(StakingError::SubtractionOverflow { minuend: 5, subtrahend: 10 })
    );
    assert_eq!(info, before);
}

#[test]
fn unbond_returns_tokens_and_keeps_rewards() {
    let (config, state) = setup(vec![(100, 200, 1_000_000)], 100);
    let (state, info) = bondLuna(&config, &state, &empty_staker(), 100, 100).unwrap();
    let outcome = unbondLuna(&config, &state, &info, 150, 40).unwrap();
    assert_eq!(outcome.amount, 40);
    assert_eq!(outcome.state.total_bond_amount_luna, 60);
    assert_eq!(outcome.staker_info.bond_amount_luna, 60);
    assert_eq!(outcome.staker_info.pending_reward_luna, 500_000);
    assert!(!outcome.remove_staker_info);
}

#[test]
fn unbond_more_than_bonded_is_refused() {
    let (config, state) = setup(vec![(100, 200, 1_000_000)], 100);
    let (state, info) = bondUst(&config, &state, &empty_staker(), 100, 100).unwrap();
    assert_eq!(
        unbondUst(&config, &state, &info, 150, 101),
        Err(StakingError::CannotUnbondMoreThanBond)
    );
    assert_eq!(
        unbondLuna(&config, &state, &info, 150, 1),
        Err(StakingError::CannotUnbondMoreThanBond)
    );
}

#[test]
fn unbond_everything_without_rewards_removes_record() {
    let (config, state) = setup(vec![(300, 400, 1_000)], 100);
    let (state, info) = bondUst(&config, &state, &empty_staker(), 100, 50).unwrap();
    let outcome = unbondUst(&config, &state, &info, 200, 50).unwrap();
    assert!(outcome.remove_staker_info);
    assert_eq!(outcome.state.total_bond_amount_ust, 0);
    assert_eq!(outcome.staker_info.bond_amount_ust, 0);
}

#[test]
fn bond_then_unbond_at_same_time_restores_bonds() {
    let (config, state) = setup(vec![(0, 100, 1000)], 0);
    let (state, info) = bondLuna(&config, &state, &empty_staker(), 0, 10).unwrap();
    let (bonded_state, bonded_info) = bondLuna(&config, &state, &info, 30, 25).unwrap();
    let outcome = unbondLuna(&config, &bonded_state, &bonded_info, 30, 25).unwrap();
    assert_eq!(outcome.state.total_bond_amount_luna, state.total_bond_amount_luna);
    assert_eq!(outcome.staker_info.bond_amount_luna, info.bond_amount_luna);
    assert_eq!(outcome.staker_info.pending_reward_luna, bonded_info.pending_reward_luna);
    assert_eq!(outcome.state.global_reward_index_luna, bonded_state.global_reward_index_luna);
}

#[test]
fn withdraw_pays_pending_and_resets_it() {
    let (config, state) = setup(vec![(100, 200, 1_000_000)], 100);
    let (state, info) = bondLuna(&config, &state, &empty_staker(), 100, 100).unwrap();
    let outcome = withdrawLuna(&config, &state, &info, 150).unwrap();
    assert_eq!(outcome.amount, 500_000);
    assert_eq!(outcome.staker_info.pending_reward_luna, 0);
    assert!(!outcome.remove_staker_info);
    let again = withdrawLuna(&config, &outcome.state, &outcome.staker_info, 150).unwrap();
    assert_eq!(again.amount, 0);
    assert_eq!(again.state, outcome.state);
    assert_eq!(again.staker_info, outcome.staker_info);
}

#[test]
fn withdraw_without_bond_removes_record() {
    let (config, state) = setup(vec![(100, 200, 1_000_000)], 100);
    let mut info = empty_staker();
    info.pending_reward_ust = 33;
    let outcome = withdrawUst(&config, &state, &info, 150).unwrap();
    assert_eq!(outcome.amount, 33);
    assert!(outcome.remove_staker_info);
}

#[test]
fn position_never_earns_more_than_distributed() {
    let schedule = vec![(0, 7, 1_000_003)];
    let pool = Pool { last_distributed: 0, total_bond_amount: 13, global_reward_index: 0 };
    let next = compute_reward(&schedule, pool, 5);
    let stake = Stake { reward_index: 0, bond_amount: 13, pending_reward: 0 };
    let caught_up = compute_staker_reward(next.global_reward_index, stake).unwrap();
    // 5 seconds of 142857.57.. per second pay 714287.
    assert!(caught_up.pending_reward <= 714_287);
}

#[test]
fn increase_and_decrease_bond_amounts() {
    let (_, mut state) = setup(vec![], 0);
    let mut info = empty_staker();
    increase_bond_amount(&mut state, &mut info, 30, 1);
    increase_bond_amount(&mut state, &mut info, 20, 0);
    assert_eq!(state.total_bond_amount_luna, 30);
    assert_eq!(info.bond_amount_ust, 20);
    assert_eq!(decrease_bond_amount(&mut state, &mut info, 10, 1), Ok(()));
    assert_eq!(state.total_bond_amount_luna, 20);
    assert_eq!(info.bond_amount_luna, 20);
    assert_eq!(
        decrease_bond_amount(&mut state, &mut info, 21, 0),
        Err(StakingError::SubtractionOverflow { minuend: 20, subtrahend: 21 })
    );
    state.total_bond_amount_ust = 100;
    assert_eq!(
        decrease_bond_amount(&mut state, &mut info, 21, 0),
        Err(StakingError::SubtractionOverflow { minuend: 20, subtrahend: 21 })
    );
    assert_eq!(state.total_bond_amount_ust, 79);
}

#[test]
fn receive_checks_hook_and_token() {
    let (config, _) = setup(vec![], 0);
    assert_eq!(receive_cw20_luna(&config, Some(Cw20HookMsg::Bond {}), &luna_addr()), Ok(()));
    assert_eq!(
        receive_cw20_luna(&config, Some(Cw20HookMsg::Bond {}), &ust_addr()),
        Err(StakingError::Unauthorized)
    );
    assert_eq!(
        receive_cw20_luna(&config, None, &luna_addr()),
        Err(StakingError::DataShouldBeGiven)
    );
    assert_eq!(receive_cw20_ust(&config, Some(Cw20HookMsg::Bond {}), &ust_addr()), Ok(()));
    assert_eq!(
        receive_cw20_ust(&config, Some(Cw20HookMsg::Bond {}), &luna_addr()),
        Err(StakingError::Unauthorized)
    );
    assert_eq!(receive_cw20_ust(&config, None, &ust_addr()), Err(StakingError::DataShouldBeGiven));
    assert!(same_address(&vec![1, 2], &vec![1, 2]));
    assert!(!same_address(&vec![1, 2], &vec![1, 2, 3]));
}

#[test]
fn schedule_checks() {
    let (config, mut state) = setup(vec![(0, 100, 10), (50, 150, 20), (200, 300, 30)], 0);
    state.last_distributed_luna = 60;
    // unchanged, and reordered
    assert_eq!(assert_new_schedules(&config, &state, config.distribution_schedule.clone()), Ok(()));
    assert_eq!(
        assert_new_schedules(&config, &state, vec![(200, 300, 30), (50, 150, 20), (0, 100, 10)]),
        Ok(())
    );
    // shorter
    assert_eq!(
        assert_new_schedules(&config, &state, vec![(0, 100, 10), (50, 150, 20)]),
        Err(StakingError::ScheduleTooShort)
    );
    // a started slot is replaced
    assert_eq!(
        assert_new_schedules(&config, &state, vec![(0, 100, 10), (50, 150, 21), (200, 300, 30)]),
        Err(StakingError::RemovesStartedDistribution)
    );
    // a started slot is added
    assert_eq!(
        assert_new_schedules(
            &config,
            &state,
            vec![(0, 100, 10), (50, 150, 20), (200, 300, 30), (60, 70, 1)]
        ),
        Err(StakingError::AddsStartedDistribution)
    );
    // a second copy of a started slot is an addition
    assert_eq!(
        assert_new_schedules(
            &config,
            &state,
            vec![(0, 100, 10), (50, 150, 20), (200, 300, 30), (0, 100, 10)]
        ),
        Err(StakingError::AddsStartedDistribution)
    );
    // slots that have not started may change and be added
    assert_eq!(
        assert_new_schedules(
            &config,
            &state,
            vec![(0, 100, 10), (50, 150, 20), (250, 300, 30), (400, 500, 1)]
        ),
        Ok(())
    );
    // only the LUNA distribution time counts
    state.last_distributed_ust = 1000;
    assert_eq!(
        assert_new_schedules(&config, &state, vec![(0, 100, 10), (50, 150, 20), (250, 300, 31)]),
        Ok(())
    );
}

#[test]
fn update_config_requires_governance() {
    let (config, state) = setup(vec![(0, 100, 10)], 0);
    let proposed = vec![(0, 100, 10), (500, 600, 7)];
    assert_eq!(
        update_config(config.clone(), &state, &luna_addr(), &gov_addr(), proposed.clone()),
        Err(StakingError::Unauthorized)
    );
    let updated = update_config(config.clone(), &state, &gov_addr(), &gov_addr(), proposed.clone())
        .unwrap();
    assert_eq!(updated.distribution_schedule, proposed);
    assert_eq!(updated.luna_token, luna_addr());
    assert_eq!(updated.ust_token, ust_addr());
    assert_eq!(
        update_config(config, &state, &gov_addr(), &gov_addr(), vec![]),
        Err(StakingError::ScheduleTooShort)
    );
}

#[test]
fn migrate_staking_cuts_schedule_short() {
    let (config, state) =
        setup(vec![(0, 100, 1000), (100, 200, 1000), (300, 400, 500)], 0);
    let (state, _) = bondLuna(&config, &state, &empty_staker(), 0, 10).unwrap();
    assert_eq!(
        migrate_staking(config.clone(), &state, &ust_addr(), &gov_addr(), 150),
        Err(StakingError::Unauthorized)
    );
    let migration = migrate_staking(config, &state, &gov_addr(), &gov_addr(), 150).unwrap();
    assert_eq!(migration.config.distribution_schedule, vec![(0, 100, 1000), (100, 150, 500)]);
    assert_eq!(migration.distributed_amount, 1500);
    assert_eq!(migration.remaining_amount, 1000);
    assert_eq!(migration.state.last_distributed_luna, 150);
    assert_eq!(migration.state.last_distributed_ust, 150);
    // 1500 distributed over 10 bonded LUNA
    assert_eq!(migration.state.global_reward_index_luna, 150 * ONE);
    assert_eq!(migration.state.global_reward_index_ust, 0);
    // nothing more is paid after the migration
    let pool = Pool { last_distributed: 150, total_bond_amount: 10, global_reward_index: 0 };
    let later = compute_reward(&migration.config.distribution_schedule, pool, 1_000);
    assert_eq!(later.global_reward_index, 0);
}

#[test]
fn schedule_helpers() {
    let schedule = vec![(0, 10, 5), (1, 2, 3), (0, 10, 5)];
    assert_eq!(count_occurrences(&schedule, (0, 10, 5)), 2);
    assert_eq!(count_occurrences(&schedule, (0, 10, 6)), 0);
    assert_eq!(total_amount(&schedule), 13);
    let (migrated, distributed) = migrate_schedule(&vec![(0, 3, 10), (5, 9, 1)], 2);
    // two thirds of 10, rate rounded down first: 3.33.. * 2 = 6
    assert_eq!(migrated, vec![(0, 2, 6)]);
    assert_eq!(distributed, 6);
}

#[test]
fn query_config_reports_addresses_and_schedule() {
    let (config, _) = setup(vec![(1, 2, 3)], 0);
    let response = query_config(config, "luna".to_string(), "ust".to_string());
    assert_eq!(response.luna_token, "luna");
    assert_eq!(response.ust_token, "ust");
    assert_eq!(response.distribution_schedule, vec![(1, 2, 3)]);
}

#[test]
fn bond_and_unbond_move_total_and_position_alike() {
    let (config, state) = setup(vec![(0, 100, 1000)], 0);
    let mut other = empty_staker();
    other.bond_amount_luna = 40;
    let mut state = state;
    state.total_bond_amount_luna = 40;
    let (after_bond, info) = bondLuna(&config, &state, &empty_staker(), 10, 15).unwrap();
    assert_eq!(after_bond.total_bond_amount_luna - info.bond_amount_luna, other.bond_amount_luna);
    let outcome = unbondLuna(&config, &after_bond, &info, 20, 5).unwrap();
    assert_eq!(
        outcome.state.total_bond_amount_luna - outcome.staker_info.bond_amount_luna,
        other.bond_amount_luna
    );
    let withdrawn = withdrawLuna(&config, &outcome.state, &outcome.staker_info, 30).unwrap();
    assert_eq!(withdrawn.state.total_bond_amount_luna, outcome.state.total_bond_amount_luna);
    assert_eq!(withdrawn.staker_info.bond_amount_luna, outcome.staker_info.bond_amount_luna);
}

#[test]
fn future_slot_is_accepted() {
    let (config, mut state) = setup(vec![(0, 100, 10)], 0);
    state.last_distributed_luna = 50;
    let mut proposed = config.distribution_schedule.clone();
    proposed.push((51, 60, 1));
    assert_eq!(assert_new_schedules(&config, &state, proposed), Ok(()));
}
