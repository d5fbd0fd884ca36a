//! A proof-of-stake validator/nominator registry with a verified era/session
//! scheduler, a size-bounded election snapshot builder, a proportional reward
//! distributor and a deferred slashing engine.
//!
//! The election solver itself is an external collaborator: the library
//! prepares bounded voter/target snapshots for it and consumes its output.

use vstd::prelude::*;

pub mod alist;
pub mod bounds;
pub mod consumer;
pub mod era;
pub mod fraction;
pub mod rewards;
pub mod slashing;
pub mod snapshot;
pub mod state;
pub mod tracker;
pub mod types;

verus! {

/// Account identifier. The registry keys every account by this.
pub type AccountId = u64;

/// Stake denomination.
pub type Balance = u64;

/// Stake-derived weight handed to the election solver.
pub type VoteWeight = u64;

/// Monotonically increasing era counter.
pub type EraIndex = u32;

/// Monotonically increasing session counter.
pub type SessionIndex = u32;

/// Abstract resource-cost unit, accumulated rather than measured.
pub type Weight = u64;

} // verus!
