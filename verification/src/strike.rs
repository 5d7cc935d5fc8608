//! The strike engine: turns what the chat service reports about a member
//! into changes of the ledger.
//!
//! A strike is counted when a member enters the pit, not each time the
//! member is seen in it: the `pitted` flag of a record remembers that the
//! current stay has been counted already.

use vstd::prelude::*;
use crate::config::BotConfig;
use crate::gate::{alert_owed, evaluate, Alert};
use crate::record::{
    lemma_push_new, lemma_push_other, lemma_remove_other, lemma_remove_same, lemma_slot_is,
    lemma_update_other, lemma_update_same, let_out, position, released, slot, tracks, PunishedUser,
};
use crate::state::{bump, bumped, BotState, Ledger};

verus! {

/// A member's record just before and just after a strike. `previous` is
/// `None` where the strike was the member's first.
#[derive(Clone, Copy, Debug, PartialEq, Eq)]
pub struct StrikeChange {
    pub previous: Option<PunishedUser>,
    pub current: PunishedUser,
}

/// The event shows the member entering the pit: the role is there now and
/// is not known to have been there before.
pub open spec fn enters(before: Option<bool>, after: bool) -> bool {
    after && before != Some(true)
}

/// The event shows the member leaving the pit: the role was there and is
/// gone.
pub open spec fn leaves(before: Option<bool>, after: bool) -> bool {
    !after && before == Some(true)
}

/// One strike more, as far as the count can go.
pub open spec fn raised(strikes: u16) -> u16 {
    if strikes < u16::MAX {
        (strikes + 1) as u16
    } else {
        strikes
    }
}

/// The member's record after a strike at `now`.
pub open spec fn struck(previous: Option<PunishedUser>, id: u64, now: u64) -> PunishedUser {
    match previous {
        Some(user) => PunishedUser {
            id: user.id,
            times_punished: raised(user.times_punished),
            last_punish: now,
            pitted: true,
        },
        None => PunishedUser { id, times_punished: 1, last_punish: now, pitted: true },
    }
}

/// What an event about a member does to the member's record: a strike
/// where the member enters the pit and this stay is not counted yet, the
/// way out of the pit where the member leaves, and nothing otherwise.
pub open spec fn moved(
    previous: Option<PunishedUser>,
    id: u64,
    before: Option<bool>,
    after: bool,
    now: u64,
) -> Option<PunishedUser> {
    if enters(before, after) && !(previous matches Some(user) && user.pitted) {
        Some(struck(previous, id, now))
    } else if leaves(before, after) {
        let_out(previous)
    } else {
        previous
    }
}

impl Ledger {
    /// The member is tracked and the current stay in the pit is counted.
    pub open spec fn in_pit(self, id: u64) -> bool {
        self.record(id) matches Some(user) && user.pitted
    }

    /// The ledger after a strike against the member: a first record with
    /// one strike, or one strike more on the record that is there; the
    /// record is marked as in the pit and its clock starts anew.
    pub open spec fn after_strike(self, id: u64, now: u64) -> Ledger {
        Ledger {
            users: if tracks(self.users, id) {
                self.users.update(slot(self.users, id), struck(self.record(id), id, now))
            } else {
                self.users.push(struck(None, id, now))
            },
            pits: bumped(self.pits),
            ..self
        }
    }

    /// The ledger after the member has left the pit: the count stays.
    pub open spec fn after_release(self, id: u64) -> Ledger {
        match self.record(id) {
            Some(user) => Ledger {
                users: self.users.update(slot(self.users, id), released(user)),
                ..self
            },
            None => self,
        }
    }

    /// The event counts as a strike: the member enters the pit and this
    /// stay has not been counted.
    pub open spec fn counts_strike(self, id: u64, before: Option<bool>, after: bool) -> bool {
        enters(before, after) && !self.in_pit(id)
    }

    /// The ledger after an event about the member's roles.
    pub open spec fn after_transition(
        self,
        id: u64,
        before: Option<bool>,
        after: bool,
        now: u64,
    ) -> Ledger {
        if self.counts_strike(id, before, after) {
            self.after_strike(id, now)
        } else if leaves(before, after) {
            self.after_release(id)
        } else {
            self
        }
    }

    /// What the strike engine reports for an event: the record before and
    /// after, where the event counted as a strike.
    pub open spec fn strike_report(
        self,
        id: u64,
        before: Option<bool>,
        after: bool,
        now: u64,
    ) -> Option<StrikeChange> {
        if self.counts_strike(id, before, after) {
            Some(
                StrikeChange {
                    previous: self.record(id),
                    current: struck(self.record(id), id, now),
                },
            )
        } else {
            None
        }
    }

    /// The ledger after the member was banned: the record is gone and the
    /// ban is counted.
    pub open spec fn after_ban(self, id: u64) -> Ledger {
        Ledger {
            users: if tracks(self.users, id) {
                self.users.remove(slot(self.users, id))
            } else {
                self.users
            },
            bans: bumped(self.bans),
            ..self
        }
    }
}

/// One report about a member who holds the punishment role: whether the
/// role was there before, if that is known, and when the report came.
pub struct Sighting {
    pub before: Option<bool>,
    pub at: u64,
}

/// One of the reports shows the member entering the pit.
pub open spec fn shows_entry(sightings: Seq<Sighting>) -> bool {
    exists|k: int| 0 <= k < sightings.len() && enters(#[trigger] sightings[k].before, true)
}

impl Ledger {
    /// The member's strikes: none without a record.
    pub open spec fn strikes_of(self, id: u64) -> int {
        match self.record(id) {
            Some(user) => user.times_punished as int,
            None => 0,
        }
    }

    /// The ledger after a run of reports about a member who holds the
    /// punishment role throughout.
    pub open spec fn after_stay(self, id: u64, sightings: Seq<Sighting>) -> Ledger
        decreases sightings.len(),
    {
        if sightings.len() == 0 {
            self
        } else {
            self.after_stay(id, sightings.drop_last()).after_transition(
                id,
                sightings.last().before,
                true,
                sightings.last().at,
            )
        }
    }
}

/// A strike leaves a ledger a ledger, changes the member's record as
/// `struck` says, and leaves every other member's record alone.
pub proof fn lemma_strike_effect(ledger: Ledger, id: u64, now: u64)
    requires
        ledger.wf(),
    ensures
        ledger.after_strike(id, now).wf(),
        ledger.after_strike(id, now).record(id) == Some(struck(ledger.record(id), id, now)),
        ledger.same_but(ledger.after_strike(id, now), id),
{
    let users = ledger.users;
    let next = ledger.after_strike(id, now);
    let current = struck(ledger.record(id), id, now);
    if tracks(users, id) {
        let i = slot(users, id);
        lemma_update_same(users, i, current);
        assert forall|other: u64| other != id implies #[trigger] next.record(other)
            == ledger.record(other) by {
            lemma_update_other(users, i, current, other);
        }
    } else {
        lemma_push_new(users, current);
        assert forall|other: u64| other != id implies #[trigger] next.record(other)
            == ledger.record(other) by {
            lemma_push_other(users, current, other);
        }
    }
}

/// The way out of the pit leaves a ledger a ledger, clears the flag on the
/// member's record, and leaves every other member's record alone.
pub proof fn lemma_release_effect(ledger: Ledger, id: u64)
    requires
        ledger.wf(),
    ensures
        ledger.after_release(id).wf(),
        ledger.after_release(id).record(id) == let_out(ledger.record(id)),
        ledger.same_but(ledger.after_release(id), id),
{
    let users = ledger.users;
    let next = ledger.after_release(id);
    if tracks(users, id) {
        let i = slot(users, id);
        let cleared = released(users[i]);
        lemma_update_same(users, i, cleared);
        assert forall|other: u64| other != id implies #[trigger] next.record(other)
            == ledger.record(other) by {
            lemma_update_other(users, i, cleared, other);
        }
    }
}

/// An event about a member leaves a ledger a ledger, changes the member's
/// record as `moved` says, and leaves every other member's record alone.
pub proof fn lemma_transition_effect(
    ledger: Ledger,
    id: u64,
    before: Option<bool>,
    after: bool,
    now: u64,
)
    requires
        ledger.wf(),
    ensures
        ledger.after_transition(id, before, after, now).wf(),
        ledger.after_transition(id, before, after, now).record(id) == moved(
            ledger.record(id),
            id,
            before,
            after,
            now,
        ),
        ledger.same_but(ledger.after_transition(id, before, after, now), id),
{
    lemma_strike_effect(ledger, id, now);
    lemma_release_effect(ledger, id);
}

/// A ban leaves a ledger a ledger, leaves the member without a record, and
/// leaves every other member's record alone.
pub proof fn lemma_ban_effect(ledger: Ledger, id: u64)
    requires
        ledger.wf(),
    ensures
        ledger.after_ban(id).wf(),
        ledger.after_ban(id).record(id) is None,
        ledger.same_but(ledger.after_ban(id), id),
{
    let users = ledger.users;
    let next = ledger.after_ban(id);
    if tracks(users, id) {
        let i = slot(users, id);
        lemma_remove_same(users, i);
        assert forall|other: u64| other != id implies #[trigger] next.record(other)
            == ledger.record(other) by {
            lemma_remove_other(users, i, other);
        }
    }
}

/// However often a member is reported while holding the punishment role,
/// the stay costs one strike: the count goes up by one if the stay was not
/// counted yet and one of the reports shows the member entering, and stays
/// as it is otherwise. Only a count that stands at its limit cannot go up.
pub proof fn law_one_strike_per_stay(ledger: Ledger, id: u64, sightings: Seq<Sighting>)
    requires
        ledger.wf(),
    ensures
        ledger.after_stay(id, sightings).wf(),
        ledger.after_stay(id, sightings).strikes_of(id) == ledger.strikes_of(id) + if !ledger.in_pit(
            id,
        ) && shows_entry(sightings) && ledger.strikes_of(id) < u16::MAX {
            1int
        } else {
            0int
        },
        shows_entry(sightings) ==> ledger.after_stay(id, sightings).in_pit(id),
        ledger.in_pit(id) || !shows_entry(sightings) ==> ledger.after_stay(id, sightings) == ledger,
    decreases sightings.len(),
{
    if sightings.len() > 0 {
        let earlier = sightings.drop_last();
        let last = sightings.last();
        let so_far = ledger.after_stay(id, earlier);
        law_one_strike_per_stay(ledger, id, earlier);
        if shows_entry(earlier) {
            let k = choose|k: int| 0 <= k < earlier.len() && enters(#[trigger] earlier[k].before, true);
            assert(enters(sightings[k].before, true));
        } else if enters(last.before, true) {
            assert(enters(sightings[sightings.len() - 1].before, true));
        } else {
            if shows_entry(sightings) {
                let k = choose|k: int|
                    0 <= k < sightings.len() && enters(#[trigger] sightings[k].before, true);
                assert(k < earlier.len());
                assert(enters(earlier[k].before, true));
            }
        }
        if so_far.counts_strike(id, last.before, true) {
            lemma_strike_effect(so_far, id, last.at);
        }
    }
}

/// Tells whether `role` is among `roles`.
pub fn has_role(roles: &Vec<u64>, role: u64) -> (present: bool)
    ensures
        present == roles@.contains(role),
{
    let mut i: usize = 0;
    while i < roles.len()
        invariant
            i <= roles.len(),
            forall|j: int| 0 <= j < i ==> roles[j] != role,
        decreases roles.len() - i,
    {
        if roles[i] == role {
            return true;
        }
        i += 1;
    }
    false
}

/// Whether the punishment role is among the roles, where they are known.
pub open spec fn marker_in(roles: Option<&Vec<u64>>, role: u64) -> Option<bool> {
    match roles {
        Some(list) => Some(list@.contains(role)),
        None => None,
    }
}

/// The alert that an event calls for: the one that its strike calls for,
/// if it counted as one.
pub open spec fn alert_for(report: Option<StrikeChange>, threshold: u16) -> Option<Alert> {
    match report {
        Some(change) => alert_owed(change, threshold),
        None => None,
    }
}

impl BotState {
    /// Records a strike against the member at `now`, whatever the record
    /// says about the pit, and counts the punishment. Returns the record
    /// before and after.
    pub fn upsert_or_increment(&mut self, id: u64, now: u64) -> (change: StrikeChange)
        ensures
            final(self)@ == old(self)@.after_strike(id, now),
            final(self)@.wf(),
            change.previous == old(self)@.record(id),
            change.current == struck(old(self)@.record(id), id, now),
            final(self)@.record(id) == Some(change.current),
            old(self)@.same_but(final(self)@, id),
    {
        proof {
            use_type_invariant(&*self);
            lemma_strike_effect(self@, id, now);
        }
        let found = position(&self.users, id);
        self.pits = bump(self.pits);
        match found {
            Some(i) => {
                proof {
                    lemma_slot_is(self.users@, id, i as int);
                }
                let user = self.users[i];
                let strikes = if user.times_punished < u16::MAX {
                    user.times_punished + 1
                } else {
                    user.times_punished
                };
                let current = PunishedUser {
                    id: user.id,
                    times_punished: strikes,
                    last_punish: now,
                    pitted: true,
                };
                let mut users = self.take_users();
                users.set(i, current);
                proof {
                    lemma_slot_is(users@, id, i as int);
                }
                self.users = users;
                StrikeChange { previous: Some(user), current }
            },
            None => {
                let current = PunishedUser { id, times_punished: 1, last_punish: now, pitted: true };
                let mut users = self.take_users();
                users.push(current);
                proof {
                    lemma_slot_is(users@, id, users@.len() - 1);
                }
                self.users = users;
                StrikeChange { previous: None, current }
            },
        }
    }

    /// Notes that the member has left the pit. The strikes stay.
    pub fn clear_active(&mut self, id: u64)
        ensures
            final(self)@ == old(self)@.after_release(id),
            final(self)@.wf(),
            final(self)@.record(id) == let_out(old(self)@.record(id)),
            old(self)@.same_but(final(self)@, id),
    {
        proof {
            use_type_invariant(&*self);
            lemma_release_effect(self@, id);
        }
        match position(&self.users, id) {
            Some(i) => {
                proof {
                    lemma_slot_is(self.users@, id, i as int);
                }
                let user = self.users[i];
                let mut users = self.take_users();
                users.set(
                    i,
                    PunishedUser {
                        id: user.id,
                        times_punished: user.times_punished,
                        last_punish: user.last_punish,
                        pitted: false,
                    },
                );
                self.users = users;
            },
            None => {},
        }
    }

    /// Handles one event about a member: the punishment role was there
    /// `before` (if that is known) and is there `after`. A strike is counted
    /// when the member enters the pit and this stay was not counted before;
    /// the record before and after is then returned. A member who leaves is
    /// marked as out of the pit. Every other event changes nothing.
    pub fn member_transition(
        &mut self,
        id: u64,
        before: Option<bool>,
        after: bool,
        now: u64,
    ) -> (change: Option<StrikeChange>)
        ensures
            final(self)@ == old(self)@.after_transition(id, before, after, now),
            final(self)@.wf(),
            change == old(self)@.strike_report(id, before, after, now),
            final(self)@.record(id) == moved(old(self)@.record(id), id, before, after, now),
            old(self)@.same_but(final(self)@, id),
    {
        proof {
            use_type_invariant(&*self);
            lemma_transition_effect(self@, id, before, after, now);
        }
        if after {
            let seen_before = match before {
                Some(present) => present,
                None => false,
            };
            if seen_before {
                return None;
            }
            let counted = match self.get(id) {
                Some(user) => user.pitted,
                None => false,
            };
            if counted {
                None
            } else {
                Some(self.upsert_or_increment(id, now))
            }
        } else {
            match before {
                Some(true) => {
                    self.clear_active(id);
                },
                _ => {},
            }
            None
        }
    }

    /// Handles a change of a member's roles as the chat service reports it:
    /// the roles before, where the service still knew them, and the roles
    /// now. Returns the alert that is owed to the moderators, if the change
    /// was a strike that took the member across the warning threshold.
    pub fn guild_member_update(
        &mut self,
        config: &BotConfig,
        id: u64,
        old_roles: Option<&Vec<u64>>,
        new_roles: &Vec<u64>,
        now: u64,
    ) -> (alert: Option<Alert>)
        ensures
            final(self)@ == old(self)@.after_transition(
                id,
                marker_in(old_roles, config.punishment_role),
                new_roles@.contains(config.punishment_role),
                now,
            ),
            final(self)@.wf(),
            alert == alert_for(
                old(self)@.strike_report(
                    id,
                    marker_in(old_roles, config.punishment_role),
                    new_roles@.contains(config.punishment_role),
                    now,
                ),
                config.warn_threshold,
            ),
            final(self)@.record(id) == moved(
                old(self)@.record(id),
                id,
                marker_in(old_roles, config.punishment_role),
                new_roles@.contains(config.punishment_role),
                now,
            ),
            old(self)@.same_but(final(self)@, id),
    {
        let before = match old_roles {
            Some(list) => Some(has_role(list, config.punishment_role)),
            None => None,
        };
        let after = has_role(new_roles, config.punishment_role);
        match self.member_transition(id, before, after, now) {
            Some(change) => evaluate(&change, config.warn_threshold),
            None => None,
        }
    }

    /// Handles a ban: the member's record is dropped, if there is one, and
    /// the ban is counted.
    pub fn guild_ban_addition(&mut self, banned: u64)
        ensures
            final(self)@ == old(self)@.after_ban(banned),
            final(self)@.wf(),
            final(self)@.record(banned) is None,
            old(self)@.same_but(final(self)@, banned),
    {
        proof {
            use_type_invariant(&*self);
            lemma_ban_effect(self@, banned);
        }
        self.bans = bump(self.bans);
        match position(&self.users, banned) {
            Some(i) => {
                proof {
                    lemma_slot_is(self.users@, banned, i as int);
                }
                let mut users = self.take_users();
                users.remove(i);
                self.users = users;
            },
            None => {},
        }
    }
}

} // verus!
