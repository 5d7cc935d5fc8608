//! Saving the ledger and reading it back.
//!
//! Two files are kept: the list of records and the counters. Each has one
//! backup, the copy of what was there before the last save. This module
//! says what is written and in which order; the caller reads and writes
//! the files, after it has let go of the state.

use vstd::prelude::*;
use crate::record::{
    lemma_release_all, lemma_release_keeps_ledger, let_out, valid_ledger, PunishedUser,
};
use crate::state::{BotState, BotStats, Ledger};

verus! {

/// What a save writes out: the records in their order, and the counters.
/// The start time and the reminders are not saved.
#[derive(Debug, PartialEq, Eq)]
pub struct Snapshot {
    pub users: Vec<PunishedUser>,
    pub stats: BotStats,
}

/// One step of a save.
#[derive(Clone, Copy, Debug, PartialEq, Eq, Structural)]
pub enum SaveStep {
    /// Copy the file of records over its backup.
    BackupUsers,
    /// Copy the file of counters over its backup.
    BackupStats,
    /// Write the file of records anew.
    WriteUsers,
    /// Write the file of counters anew.
    WriteStats,
}

/// The steps of a save, in order: every file that is there is first copied
/// over its backup, then both files are written.
pub open spec fn save_steps(users_on_disk: bool, stats_on_disk: bool) -> Seq<SaveStep> {
    let users_backup = if users_on_disk {
        seq![SaveStep::BackupUsers]
    } else {
        Seq::empty()
    };
    let stats_backup = if stats_on_disk {
        seq![SaveStep::BackupStats]
    } else {
        Seq::empty()
    };
    users_backup + stats_backup + seq![SaveStep::WriteUsers, SaveStep::WriteStats]
}

/// Lays out a save, given which of the two files exist. The caller takes
/// the steps in order and gives up at the first one that fails.
pub fn save_plan(users_on_disk: bool, stats_on_disk: bool) -> (plan: Vec<SaveStep>)
    ensures
        plan@ == save_steps(users_on_disk, stats_on_disk),
{
    let mut plan: Vec<SaveStep> = Vec::new();
    if users_on_disk {
        plan.push(SaveStep::BackupUsers);
    }
    if stats_on_disk {
        plan.push(SaveStep::BackupStats);
    }
    plan.push(SaveStep::WriteUsers);
    plan.push(SaveStep::WriteStats);
    assert(plan@ =~= save_steps(users_on_disk, stats_on_disk));
    plan
}

/// What of a record is written to disk.
pub open spec fn persisted(user: PunishedUser) -> (u64, u16, u64) {
    (user.id, user.times_punished, user.last_punish)
}

/// `persisted` as a rule to apply to every record.
pub open spec fn persisted_rule() -> spec_fn(PunishedUser) -> (u64, u16, u64) {
    |user: PunishedUser| persisted(user)
}

/// Saving a ledger and starting from what was saved gives the same
/// records, member by member and in the same order, with the same strikes
/// and clocks, and the same counters. The start time is the time of the
/// restart, no reminder is carried over, and nobody is taken to be in the
/// pit.
pub proof fn law_restore_keeps(ledger: Ledger, now: u64, id: u64)
    requires
        ledger.wf(),
    ensures
        Ledger::restored(Some(ledger.users), Some(ledger.stats()), now).wf(),
        Ledger::restored(Some(ledger.users), Some(ledger.stats()), now).users.map_values(
            persisted_rule(),
        ) == ledger.users.map_values(persisted_rule()),
        Ledger::restored(Some(ledger.users), Some(ledger.stats()), now).record(id) == let_out(
            ledger.record(id),
        ),
        Ledger::restored(Some(ledger.users), Some(ledger.stats()), now).stats() == ledger.stats(),
        Ledger::restored(Some(ledger.users), Some(ledger.stats()), now).started == now,
        Ledger::restored(Some(ledger.users), Some(ledger.stats()), now).reminders.len() == 0,
{
    let back = Ledger::restored(Some(ledger.users), Some(ledger.stats()), now);
    assert(back.users.map_values(persisted_rule()) =~= ledger.users.map_values(persisted_rule()));
    lemma_release_keeps_ledger(ledger.users);
    lemma_release_all(ledger.users, id);
}

impl BotState {
    /// Takes down what a save has to write: a copy of the records and of
    /// the counters as they are now.
    pub fn flatdb_save(&self) -> (snapshot: Snapshot)
        ensures
            snapshot.users@ == self@.users,
            snapshot.stats == self@.stats(),
            valid_ledger(snapshot.users@),
    {
        proof {
            use_type_invariant(self);
        }
        let mut users: Vec<PunishedUser> = Vec::new();
        let mut i: usize = 0;
        while i < self.users.len()
            invariant
                i <= self.users.len(),
                users@ == self.users@.take(i as int),
            decreases self.users.len() - i,
        {
            users.push(self.users[i]);
            assert(users@ =~= self.users@.take(i + 1));
            i += 1;
        }
        assert(users@ =~= self.users@);
        Snapshot { users, stats: BotStats { bans: self.bans, pits: self.pits } }
    }
}

} // verus!
