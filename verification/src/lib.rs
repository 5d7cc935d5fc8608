//! Punishment ledger for a community moderation bot.
//!
//! The ledger counts strikes per member, alerts moderators when a member
//! crosses the warning threshold, and forgives strikes as time passes.

pub mod admin;
pub mod command;
pub mod config;
pub mod decay;
pub mod gate;
pub mod record;
pub mod reminder;
pub mod snapshot;
pub mod state;
pub mod strike;
