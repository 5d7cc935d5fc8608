//! The record store: every record and counter the bot keeps, behind one value.
//!
//! A `BotState` is meant to sit behind a single lock. Each method does its
//! work in memory and returns what has to be sent or written, so that the
//! caller can release the lock before it talks to the network or the disk.

use vstd::prelude::*;
use crate::record::{
    lemma_release_all, lemma_release_keeps_ledger, lemma_slot_is, let_out, position, record_of,
    release_rule, released, valid_ledger, PunishedUser,
};
use crate::reminder::Reminder;

verus! {

/// The counters that are kept beside the records.
#[derive(Clone, Copy, Debug, PartialEq, Eq, Structural)]
pub struct BotStats {
    pub bans: u64,
    pub pits: u64,
}

/// Records, counters and reminders of a running bot.
pub struct BotState {
    pub(crate) bans: u64,
    pub(crate) pits: u64,
    pub(crate) uptime: u64,
    pub(crate) users: Vec<PunishedUser>,
    pub(crate) reminders: Vec<Reminder>,
}

/// What a `BotState` holds, as plain mathematics.
pub struct Ledger {
    /// The records, in the order in which the members were first struck.
    pub users: Seq<PunishedUser>,
    /// Bans seen so far.
    pub bans: u64,
    /// Punishments recorded so far.
    pub pits: u64,
    /// When this state was made, in seconds since the Unix epoch.
    pub started: u64,
    /// Reminders that have not fired yet, oldest first.
    pub reminders: Seq<Reminder>,
}

/// One more, as far as the counter can go.
pub open spec fn bumped(count: u64) -> u64 {
    if count < u64::MAX {
        (count + 1) as u64
    } else {
        count
    }
}

impl Ledger {
    /// No member has two records and no record is without a strike.
    pub open spec fn wf(self) -> bool {
        valid_ledger(self.users)
    }

    /// The member's record, if there is one.
    pub open spec fn record(self, id: u64) -> Option<PunishedUser> {
        record_of(self.users, id)
    }

    /// Every member but `id` has in `next` the record that the member has
    /// here, or none in both.
    pub open spec fn same_but(self, next: Ledger, id: u64) -> bool {
        forall|other: u64| other != id ==> #[trigger] next.record(other) == self.record(other)
    }

    /// The counters as they are written out.
    pub open spec fn stats(self) -> BotStats {
        BotStats { bans: self.bans, pits: self.pits }
    }

    /// The state at start-up. Without a list of records the state is empty
    /// and the counters are dropped; with one, missing counters count as
    /// zero. Nobody is taken to be in the pit, and nothing else is carried
    /// over from an earlier run.
    pub open spec fn restored(
        users: Option<Seq<PunishedUser>>,
        stats: Option<BotStats>,
        now: u64,
    ) -> Ledger {
        match users {
            None => Ledger {
                users: Seq::empty(),
                bans: 0,
                pits: 0,
                started: now,
                reminders: Seq::empty(),
            },
            Some(list) => Ledger {
                users: list.map_values(release_rule()),
                bans: match stats {
                    Some(s) => s.bans,
                    None => 0,
                },
                pits: match stats {
                    Some(s) => s.pits,
                    None => 0,
                },
                started: now,
                reminders: Seq::empty(),
            },
        }
    }
}

impl View for BotState {
    type V = Ledger;

    open(crate) spec fn view(&self) -> Ledger {
        Ledger {
            users: self.users@,
            bans: self.bans,
            pits: self.pits,
            started: self.uptime,
            reminders: self.reminders@,
        }
    }
}

/// One more, as far as the counter can go.
pub(crate) fn bump(count: u64) -> (next: u64)
    ensures
        next == bumped(count),
{
    if count < u64::MAX {
        count + 1
    } else {
        count
    }
}

impl BotState {
    #[verifier::type_invariant]
    pub(crate) open(crate) spec fn inv(self) -> bool {
        valid_ledger(self.users@)
    }

    /// Takes the records out to work on them; the caller puts them back.
    pub(crate) fn take_users(&mut self) -> (users: Vec<PunishedUser>)
        ensures
            users@ == old(self)@.users,
            final(self)@ == (Ledger { users: Seq::empty(), ..old(self)@ }),
    {
        let mut users: Vec<PunishedUser> = Vec::new();
        core::mem::swap(&mut self.users, &mut users);
        users
    }

    /// Takes the reminders out to work on them; the caller puts them back.
    pub(crate) fn take_reminders(&mut self) -> (reminders: Vec<Reminder>)
        ensures
            reminders@ == old(self)@.reminders,
            final(self)@ == (Ledger { reminders: Seq::empty(), ..old(self)@ }),
    {
        proof {
            use_type_invariant(&*self);
        }
        let mut reminders: Vec<Reminder> = Vec::new();
        core::mem::swap(&mut self.reminders, &mut reminders);
        reminders
    }

    /// Builds the state at start-up from what was found on disk: the list
    /// of records, if there was one, and the counters, if they could be
    /// read. `now` becomes the start time.
    pub fn new(users: Option<Vec<PunishedUser>>, stats: Option<BotStats>, now: u64) -> (state:
        BotState)
        requires
            users matches Some(list) ==> valid_ledger(list@),
        ensures
            state@ == Ledger::restored(
                match users {
                    Some(list) => Some(list@),
                    None => None,
                },
                stats,
                now,
            ),
            state@.wf(),
            users matches Some(list) ==> forall|id: u64| #[trigger]
                state@.record(id) == let_out(record_of(list@, id)),
    {
        match users {
            None => BotState {
                bans: 0,
                pits: 0,
                uptime: now,
                users: Vec::new(),
                reminders: Vec::new(),
            },
            Some(list) => {
                let counters = match stats {
                    Some(s) => s,
                    None => BotStats { bans: 0, pits: 0 },
                };
                let mut fresh: Vec<PunishedUser> = Vec::new();
                let mut i: usize = 0;
                while i < list.len()
                    invariant
                        i <= list.len(),
                        fresh.len() == i,
                        forall|j: int| 0 <= j < i ==> fresh[j] == released(list[j]),
                    decreases list.len() - i,
                {
                    let user = list[i];
                    fresh.push(
                        PunishedUser {
                            id: user.id,
                            times_punished: user.times_punished,
                            last_punish: user.last_punish,
                            pitted: false,
                        },
                    );
                    i += 1;
                }
                proof {
                    assert(fresh@ =~= list@.map_values(release_rule()));
                    lemma_release_keeps_ledger(list@);
                    assert forall|id: u64| #[trigger]
                        record_of(fresh@, id) == let_out(record_of(list@, id)) by {
                        lemma_release_all(list@, id);
                    }
                }
                BotState {
                    bans: counters.bans,
                    pits: counters.pits,
                    uptime: now,
                    users: fresh,
                    reminders: Vec::new(),
                }
            },
        }
    }

    /// The member's record as it is now, if there is one.
    pub fn get(&self, id: u64) -> (found: Option<PunishedUser>)
        ensures
            found == self@.record(id),
            self@.wf(),
    {
        proof {
            use_type_invariant(self);
        }
        match position(&self.users, id) {
            Some(i) => {
                proof {
                    lemma_slot_is(self.users@, id, i as int);
                }
                Some(self.users[i])
            },
            None => None,
        }
    }

    /// Bans seen so far.
    pub fn bans(&self) -> (count: u64)
        ensures
            count == self@.bans,
    {
        self.bans
    }

    /// Punishments recorded so far.
    pub fn pits(&self) -> (count: u64)
        ensures
            count == self@.pits,
    {
        self.pits
    }

    /// When this state was made, in seconds since the Unix epoch.
    pub fn uptime(&self) -> (since: u64)
        ensures
            since == self@.started,
    {
        self.uptime
    }

    /// How many members have a record.
    pub fn member_count(&self) -> (count: usize)
        ensures
            count == self@.users.len(),
    {
        self.users.len()
    }
}

} // verus!
