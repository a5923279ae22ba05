//! Why a staking operation is refused.
use vstd::prelude::*;

verus! {

/// The reasons for which an operation of the contract is refused.
#[derive(Clone, Copy, Debug, PartialEq, Eq)]
pub enum StakingError {
    /// The sender may not perform the operation ("unauthorized").
    Unauthorized,
    /// The hook message of a token transfer did not decode
    /// ("data should be given").
    DataShouldBeGiven,
    /// An unbond asks for more than the staker has bonded
    /// ("Cannot unbond more than bond amount").
    CannotUnbondMoreThanBond,
    /// A new schedule is shorter than the current one
    /// ("cannot update; the new schedule must support all of the previous schedule").
    ScheduleTooShort,
    /// A new schedule drops a slot that has already started
    /// ("new schedule removes already started distribution").
    RemovesStartedDistribution,
    /// A new schedule adds a slot that would already have started
    /// ("new schedule adds an already started distribution").
    AddsStartedDistribution,
    /// A checked subtraction `minuend - subtrahend` went below zero.
    SubtractionOverflow { minuend: u128, subtrahend: u128 },
}

} // verus!
