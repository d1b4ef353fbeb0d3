//! Guild role ledger and cooldown engine.
//!
//! The crate models the state that decides, for any (guild, user, role)
//! triple, whether a grant, revoke or ownership transfer is currently
//! allowed, together with the lifecycle machinery around it: per-key
//! cooldowns, per-guild cached state hydrated from a membership source,
//! a durable ownership ledger with per-owner quotas, a per-user economy,
//! expiry deadlines with idempotent warning sweeps, and rejoin
//! reinstatement.  Every operation is a single atomic state transition
//! with an exact contract; the platform gateway and the actual durable
//! store live outside this crate and hand it plain values.

use vstd::prelude::*;

pub mod colour;
pub mod cooldown;
pub mod deadline;
pub mod economy;
pub mod guild_cache;
pub mod guild_state;
pub mod hydrate;
pub mod ownership;
pub mod store;
pub mod user_roles;

verus! {

/// Seconds in one hour.
pub const HOUR_SECONDS: u64 = 60 * 60;

/// Seconds in one day.
pub const DAY_SECONDS: u64 = 60 * 60 * 24;

/// Seconds in one week.
pub const WEEK_SECONDS: u64 = 60 * 60 * 24 * 7;

} // verus!
