//! Facts about distribution schedules: how often a slot occurs, what a
//! schedule pays in all, and how a schedule is cut short at a given time.
use vstd::prelude::*;

use crate::math::{lemma_ratio_scale_nonneg, lemma_scale_of_ratio_bounded, ratio, scale};
use crate::math::{decimal_from_ratio, uint_times_decimal};
use crate::state::Slot;

verus! {

/// How many times `slot` occurs in `schedule`.
pub open spec fn occurrences(schedule: Seq<Slot>, slot: Slot) -> nat
    decreases schedule.len(),
{
    if schedule.len() == 0 {
        0
    } else {
        occurrences(schedule.drop_last(), slot) + if schedule.last() == slot {
            1nat
        } else {
            0nat
        }
    }
}

/// The sum of the amounts of all slots of a schedule.
pub open spec fn schedule_total(schedule: Seq<Slot>) -> int
    decreases schedule.len(),
{
    if schedule.len() == 0 {
        0
    } else {
        schedule_total(schedule.drop_last()) + schedule.last().2
    }
}

/// A slot that has started before `block_time`, cut short at `block_time`: a
/// slot that has ended is kept whole; a slot still running ends at
/// `block_time` and keeps the amount it has paid so far (its rate, rounded
/// down, times the seconds since its start, rounded down).
pub open spec fn migrated_slot(slot: Slot, block_time: u64) -> Slot {
    if slot.1 < block_time {
        slot
    } else {
        (
            slot.0,
            block_time,
            scale(block_time - slot.0, ratio(slot.2 as int, slot.1 - slot.0)) as u128,
        )
    }
}

/// A schedule cut short at `block_time`: the slots that have not started are
/// dropped, the others are cut short, in order.
pub open spec fn migrated_schedule(schedule: Seq<Slot>, block_time: u64) -> Seq<Slot>
    decreases schedule.len(),
{
    if schedule.len() == 0 {
        Seq::empty()
    } else {
        let rest = migrated_schedule(schedule.drop_last(), block_time);
        if schedule.last().0 < block_time {
            rest.push(migrated_slot(schedule.last(), block_time))
        } else {
            rest
        }
    }
}

/// The inputs on which cutting a schedule short completes: its total fits,
/// and the rate of every running slot fits a decimal.
pub open spec fn migration_ready(schedule: Seq<Slot>, block_time: u64) -> bool {
    &&& schedule_total(schedule) <= u128::MAX
    &&& forall|i: int|
        0 <= i < schedule.len() && (#[trigger] schedule[i]).0 < block_time && block_time
            <= schedule[i].1 ==> ratio(schedule[i].2 as int, schedule[i].1 - schedule[i].0)
            <= u128::MAX
}

/// A slot that occurs in a schedule stands at some index of it.
pub proof fn lemma_occurs_at_index(schedule: Seq<Slot>, slot: Slot)
    requires
        occurrences(schedule, slot) > 0,
    ensures
        exists|j: int| 0 <= j < schedule.len() && schedule[j] == slot,
    decreases schedule.len(),
{
    if schedule.last() == slot {
        assert(schedule[schedule.len() - 1] == slot);
    } else {
        let rest = schedule.drop_last();
        lemma_occurs_at_index(rest, slot);
        let j = choose|j: int| 0 <= j < rest.len() && rest[j] == slot;
        assert(schedule[j] == slot);
    }
}

/// The total of a prefix of a schedule lies between nothing and the total of
/// the schedule.
pub proof fn lemma_total_prefix(schedule: Seq<Slot>, k: int)
    requires
        0 <= k <= schedule.len(),
    ensures
        0 <= schedule_total(schedule.take(k)) <= schedule_total(schedule),
    decreases schedule.len(),
{
    if schedule.len() == 0 {
        assert(schedule.take(k) =~= schedule);
    } else {
        let rest = schedule.drop_last();
        if k == schedule.len() {
            assert(schedule.take(k) =~= schedule);
            lemma_total_prefix(rest, rest.len() as int);
            assert(rest.take(rest.len() as int) =~= rest);
        } else {
            lemma_total_prefix(rest, k);
            assert(rest.take(k) =~= schedule.take(k));
        }
    }
}

/// Cutting a schedule short never raises its total.
pub proof fn lemma_migrated_total_bounded(schedule: Seq<Slot>, block_time: u64)
    ensures
        0 <= schedule_total(migrated_schedule(schedule, block_time)) <= schedule_total(schedule),
    decreases schedule.len(),
{
    if schedule.len() > 0 {
        let rest = schedule.drop_last();
        let last = schedule.last();
        lemma_migrated_total_bounded(rest, block_time);
        if last.0 < block_time {
            let migrated = migrated_schedule(schedule, block_time);
            assert(migrated.drop_last() =~= migrated_schedule(rest, block_time));
            if last.1 >= block_time {
                lemma_scale_of_ratio_bounded(block_time - last.0, last.2 as int, last.1 - last.0);
                lemma_ratio_scale_nonneg(
                    last.2 as int,
                    last.1 - last.0,
                    block_time - last.0,
                    ratio(last.2 as int, last.1 - last.0),
                );
            }
        }
    }
}

/// Counts how many times `slot` occurs in `schedule`.
pub fn count_occurrences(schedule: &Vec<Slot>, slot: Slot) -> (count: usize)
    ensures
        count == occurrences(schedule@, slot),
{
    let mut count: usize = 0;
    let n = schedule.len();
    let mut i: usize = 0;
    while i < n
        invariant
            i <= n,
            n == schedule@.len(),
            count == occurrences(schedule@.take(i as int), slot),
            count <= i,
        decreases n - i,
    {
        let other = schedule[i];
        proof {
            assert(schedule@.take(i + 1).drop_last() =~= schedule@.take(i as int));
        }
        if other.0 == slot.0 && other.1 == slot.1 && other.2 == slot.2 {
            count = count + 1;
        }
        i = i + 1;
    }
    proof {
        assert(schedule@.take(n as int) =~= schedule@);
    }
    count
}

/// The sum of the amounts of all slots.
pub fn total_amount(schedule: &Vec<Slot>) -> (total: u128)
    requires
        schedule_total(schedule@) <= u128::MAX,
    ensures
        total == schedule_total(schedule@),
{
    let mut total: u128 = 0;
    let n = schedule.len();
    let mut i: usize = 0;
    while i < n
        invariant
            i <= n,
            n == schedule@.len(),
            schedule_total(schedule@) <= u128::MAX,
            total == schedule_total(schedule@.take(i as int)),
        decreases n - i,
    {
        proof {
            assert(schedule@.take(i + 1).drop_last() =~= schedule@.take(i as int));
            lemma_total_prefix(schedule@, i + 1);
        }
        total = total + schedule[i].2;
        i = i + 1;
    }
    proof {
        assert(schedule@.take(n as int) =~= schedule@);
    }
    total
}

/// Cuts a schedule short at `block_time`, and returns the cut schedule with
/// the sum of its amounts: what the schedule has distributed up to then.
pub fn migrate_schedule(schedule: &Vec<Slot>, block_time: u64) -> (result: (Vec<Slot>, u128))
    requires
        migration_ready(schedule@, block_time),
    ensures
        result.0@ == migrated_schedule(schedule@, block_time),
        result.1 == schedule_total(result.0@),
{
    let mut migrated: Vec<Slot> = Vec::new();
    let mut distributed: u128 = 0;
    let n = schedule.len();
    let mut i: usize = 0;
    while i < n
        invariant
            i <= n,
            n == schedule@.len(),
            migration_ready(schedule@, block_time),
            migrated@ == migrated_schedule(schedule@.take(i as int), block_time),
            distributed == schedule_total(migrated@),
        decreases n - i,
    {
        let slot = schedule[i];
        proof {
            let prefix = schedule@.take(i + 1);
            assert(prefix.drop_last() =~= schedule@.take(i as int));
            assert(prefix.last() == slot);
            assert(slot == schedule@[i as int]);
            lemma_migrated_total_bounded(prefix, block_time);
            lemma_total_prefix(schedule@, i + 1);
        }
        if slot.0 < block_time {
            let kept = if slot.1 < block_time {
                slot
            } else {
                let whole_time = slot.1 - slot.0;
                let per_second = decimal_from_ratio(slot.2, whole_time as u128);
                let passed_time = block_time - slot.0;
                proof {
                    lemma_scale_of_ratio_bounded(passed_time as int, slot.2 as int, whole_time as int);
                }
                let paid = uint_times_decimal(passed_time as u128, per_second);
                (slot.0, block_time, paid)
            };
            proof {
                assert(migrated@.push(kept).drop_last() =~= migrated@);
            }
            migrated.push(kept);
            distributed = distributed + kept.2;
        }
        i = i + 1;
    }
    proof {
        assert(schedule@.take(n as int) =~= schedule@);
    }
    (migrated, distributed)
}

} // verus!
