//! Reward accounting of a two-pool (LUNA and UST) staking contract.
//!
//! The library computes how a distribution schedule pays rewards to the
//! bonded stake of each pool, how each staker's share accrues, and which
//! schedule changes the owner may make. Storage, address handling and
//! message encoding live with the caller.
pub mod math;
pub mod error;
pub mod state;
pub mod reward;
pub mod contract;
pub mod schedule;
pub mod msg;
pub mod laws;
pub mod guard;
