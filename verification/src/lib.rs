//! Verified core of a community governance system: lapsing voting power with
//! checkpointed history, vote weighting, a delegate participation record, a
//! policy-bound treasury, the access rules of a timelock and a governor, and a
//! register of deployed communities.
//!
//! Every module models the state one contract keeps and the decisions it
//! makes. Reading and writing ledger storage, authorisation by signature,
//! events, token transfers, hashing and deployment are the host's work and
//! stay outside this crate.

pub mod checkpoint;
pub mod factory;
pub mod governor;
pub mod keyed;
pub mod membership;
pub mod registry;
pub mod timelock;
pub mod treasury;
pub mod weight_rule;

use vstd::prelude::*;

verus! {

/// An account or contract, identified by a number the host assigns to it.
pub type AccountId = u64;

/// A 32-byte identifier: a proposal, an operation, or a salt.
pub type Hash32 = [u8; 32];

/// Hundredths of a percent in the whole.
pub const BPS: u128 = 10_000;

} // verus!
