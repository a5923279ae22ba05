use anchor_staking::contract::{bondLuna, instantiate, unbondLuna};
use anchor_staking::guard::{
    can_bond, can_catch_up, can_compute_reward, can_count_schedules, can_migrate_schedule,
    can_query_staker, can_unbond, can_withdraw,
};
use anchor_staking::state::{read_staker_info, Pool, Stake};

const ONE: u128 = 1_000_000_000_000_000_000;

fn pool(last: u64, total: u128, index: u128) -> Pool {
    Pool { last_distributed: last, total_bond_amount: total, global_reward_index: index }
}

#[test]
fn reward_guard_accepts_ordinary_schedule() {
    let schedule = vec![(0, 100, 1000), (50, 150, 20)];
    assert!(can_compute_reward(&schedule, pool(0, 10, 0), 120));
}

#[test]
fn reward_guard_ignores_schedule_when_nothing_bonded() {
    let schedule = vec![(5, 5, 1), (0, 1, u128::MAX)];
    assert!(can_compute_reward(&schedule, pool(0, 0, 0), 10));
}

#[test]
fn reward_guard_rejects_empty_slot() {
    // a slot that starts and ends at once would divide by zero
    assert!(!can_compute_reward(&vec![(5, 5, 1)], pool(0, 1, 0), 10));
    assert!(!can_compute_reward(&vec![(6, 5, 1)], pool(0, 1, 0), 10));
}

#[test]
fn reward_guard_rejects_time_going_back() {
    // distributed up to 50, asked at 40, with a slot running over both
    assert!(!can_compute_reward(&vec![(0, 100, 1000)], pool(50, 1, 0), 40));
    // no slot runs over both: nothing to pay, nothing fails
    assert!(can_compute_reward(&vec![(60, 100, 1000)], pool(50, 1, 0), 40));
}

#[test]
fn reward_guard_rejects_overflowing_rate_and_sum() {
    assert!(!can_compute_reward(&vec![(0, 1, u128::MAX)], pool(0, 1, 0), 1));
    let half = u128::MAX / 2 + 1;
    let long = 1_000_000_000_000_000_000u64;
    let schedule = vec![(0, long, half), (0, long, half)];
    assert!(can_compute_reward(&vec![(0, long, half)], pool(0, u128::MAX, 0), long));
    assert!(!can_compute_reward(&schedule, pool(0, u128::MAX, 0), long));
    // the index itself overflowing
    assert!(!can_compute_reward(&vec![(0, 10, 10)], pool(0, 1, u128::MAX), 10));
}

#[test]
fn catch_up_guard() {
    let stake = Stake { reward_index: 0, bond_amount: u128::MAX, pending_reward: 0 };
    assert!(can_catch_up(ONE, stake));
    assert!(!can_catch_up(2 * ONE, stake));
    let pending = Stake { reward_index: 0, bond_amount: 1, pending_reward: u128::MAX };
    assert!(!can_catch_up(ONE, pending));
    // a position ahead of the pool is refused, not a panic
    let ahead = Stake { reward_index: 2 * ONE, bond_amount: 1, pending_reward: u128::MAX };
    assert!(can_catch_up(ONE, ahead));
}

#[test]
fn bond_unbond_withdraw_guards() {
    let schedule = vec![(0, 100, 1000)];
    let stake = Stake { reward_index: 0, bond_amount: 10, pending_reward: 0 };
    assert!(can_bond(&schedule, pool(0, 10, 0), stake, 50, 5));
    assert!(!can_bond(&schedule, pool(0, u128::MAX, 0), stake, 50, 1));
    assert!(can_unbond(&schedule, pool(0, 10, 0), stake, 50, 5));
    // asking for too much is refused before anything can overflow
    assert!(can_unbond(&vec![(5, 5, 1)], pool(0, 10, 0), stake, 50, 11));
    assert!(!can_unbond(&vec![(5, 5, 1)], pool(0, 10, 0), stake, 50, 10));
    assert!(can_withdraw(&schedule, pool(0, 10, 0), stake, 50));
    assert!(!can_withdraw(&vec![(5, 5, 1)], pool(0, 10, 0), stake, 50));
}

#[test]
fn query_guard() {
    let (config, state) = instantiate(vec![1], vec![2], vec![(0, 100, 1000)], 0);
    let info = read_staker_info(None);
    let (state, info) = bondLuna(&config, &state, &info, 0, 10).unwrap();
    assert!(can_query_staker(&config.distribution_schedule, &state, &info, 50));
    let outcome = unbondLuna(&config, &state, &info, 50, 10).unwrap();
    assert!(can_query_staker(&config.distribution_schedule, &outcome.state, &outcome.staker_info, 60));
}

#[test]
fn migration_guard() {
    assert!(can_migrate_schedule(&vec![(0, 100, 1000), (200, 300, 5)], 150));
    assert!(!can_migrate_schedule(&vec![(0, 100, u128::MAX), (200, 300, 5)], 150));
    // a running slot whose rate does not fit
    assert!(!can_migrate_schedule(&vec![(100, 101, u128::MAX / 2)], 100 + 1));
    // slots not yet started or already ended need no rate
    assert!(can_migrate_schedule(&vec![(100, 101, u128::MAX / 2)], 100));
    assert!(can_migrate_schedule(&vec![(100, 101, u128::MAX / 2)], 102));
}

#[test]
fn count_guard() {
    assert!(can_count_schedules(&vec![(0, 1, 2), (0, 1, 2)], &vec![(0, 1, 2)]));
    assert!(can_count_schedules(&vec![], &vec![]));
}
