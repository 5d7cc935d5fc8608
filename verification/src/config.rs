//! The settings the ledger is run with.

use vstd::prelude::*;

verus! {

/// Settings supplied from outside and fixed while the process runs.
///
/// The ids are the numbers the chat service gives to roles and channels.
/// `settle_time` is counted in days.
#[derive(Clone, Copy, Debug, PartialEq, Eq, Structural)]
pub struct BotConfig {
    pub punishment_role: u64,
    pub settle_time: u16,
    pub warn_channel: u64,
    pub warn_role: u64,
    pub warn_threshold: u16,
}

/// Length of a day in seconds.
pub const SECONDS_PER_DAY: u64 = 86_400;

/// Days between two passes of the decay engine.
pub const DECAY_EVERY_DAYS: u32 = 1;

/// Minutes between two saves of the ledger.
pub const SAVE_EVERY_MINUTES: u32 = 10;

impl BotConfig {
    /// The settle time in seconds.
    pub open spec fn settle_secs(self) -> int {
        self.settle_time * SECONDS_PER_DAY
    }

    /// The settle time in seconds: the age at which one strike is forgiven.
    pub fn settle_duration(&self) -> (secs: u64)
        ensures
            secs == self.settle_secs(),
    {
        self.settle_time as u64 * SECONDS_PER_DAY
    }
}

} // verus!
