//! What moderators can do to the ledger by hand.

use vstd::prelude::*;
use crate::record::{
    lemma_remove_other, lemma_remove_same, lemma_slot_is, lemma_update_other, lemma_update_same,
    position, slot, tracks, PunishedUser,
};
use crate::state::{BotState, Ledger};

verus! {

/// The record with `amount` strikes less, and never less than none.
pub open spec fn lessened(user: PunishedUser, amount: u16) -> PunishedUser {
    PunishedUser {
        times_punished: if user.times_punished > amount {
            (user.times_punished - amount) as u16
        } else {
            0
        },
        ..user
    }
}

/// What is left of a member's record when `amount` strikes are taken from
/// it: nothing, where no strike is left.
pub open spec fn relieved(previous: Option<PunishedUser>, amount: u16) -> Option<PunishedUser> {
    match previous {
        Some(user) => if lessened(user, amount).times_punished == 0 {
            None
        } else {
            Some(lessened(user, amount))
        },
        None => None,
    }
}

impl Ledger {
    /// The ledger after `amount` strikes were taken from the member: the
    /// record is dropped where no strike is left. Nothing changes for a
    /// member without a record.
    pub open spec fn after_decrement(self, id: u64, amount: u16) -> Ledger {
        match self.record(id) {
            Some(user) => Ledger {
                users: if lessened(user, amount).times_punished == 0 {
                    self.users.remove(slot(self.users, id))
                } else {
                    self.users.update(slot(self.users, id), lessened(user, amount))
                },
                ..self
            },
            None => self,
        }
    }

    /// The member has a strike that can be taken away.
    pub open spec fn has_strikes(self, id: u64) -> bool {
        self.record(id) matches Some(user) && user.times_punished > 0
    }

    /// The ledger after a moderator took one strike from the member.
    pub open spec fn after_removal(self, id: u64) -> Ledger {
        if self.has_strikes(id) {
            self.after_decrement(id, 1)
        } else {
            self
        }
    }

    /// What the moderator is told: the record with one strike less, or
    /// nothing where there was no strike to take.
    pub open spec fn removal_reply(self, id: u64) -> Option<PunishedUser> {
        match self.record(id) {
            Some(user) => if user.times_punished > 0 {
                Some(lessened(user, 1))
            } else {
                None
            },
            None => None,
        }
    }
}

/// Taking strikes from a member leaves a ledger a ledger, changes the
/// member's record as `relieved` says, and leaves every other member's
/// record alone.
pub proof fn lemma_decrement_effect(ledger: Ledger, id: u64, amount: u16)
    requires
        ledger.wf(),
    ensures
        ledger.after_decrement(id, amount).wf(),
        ledger.after_decrement(id, amount).record(id) == relieved(ledger.record(id), amount),
        ledger.same_but(ledger.after_decrement(id, amount), id),
{
    let users = ledger.users;
    let next = ledger.after_decrement(id, amount);
    if tracks(users, id) {
        let i = slot(users, id);
        let left = lessened(users[i], amount);
        if left.times_punished == 0 {
            lemma_remove_same(users, i);
            assert forall|other: u64| other != id implies #[trigger] next.record(other)
                == ledger.record(other) by {
                lemma_remove_other(users, i, other);
            }
        } else {
            lemma_update_same(users, i, left);
            assert forall|other: u64| other != id implies #[trigger] next.record(other)
                == ledger.record(other) by {
                lemma_update_other(users, i, left, other);
            }
        }
    }
}

/// Taking a strike from a member who has none to give, for want of a
/// record or of a strike on it, changes nothing and answers nothing.
pub proof fn law_removal_without_strikes(ledger: Ledger, id: u64)
    requires
        !ledger.has_strikes(id),
    ensures
        ledger.after_removal(id) == ledger,
        ledger.removal_reply(id) is None,
{
}

impl BotState {
    /// Takes `amount` strikes from the member's record and drops the record
    /// if none is left. Returns the record as it is after that and whether
    /// it was dropped, or `None` for a member without a record. The
    /// record's clock is not touched.
    pub fn decrement(&mut self, id: u64, amount: u16) -> (outcome: Option<(PunishedUser, bool)>)
        ensures
            final(self)@ == old(self)@.after_decrement(id, amount),
            final(self)@.wf(),
            outcome == match old(self)@.record(id) {
                Some(user) => Some(
                    (lessened(user, amount), lessened(user, amount).times_punished == 0),
                ),
                None => None,
            },
            final(self)@.record(id) == relieved(old(self)@.record(id), amount),
            old(self)@.same_but(final(self)@, id),
    {
        proof {
            use_type_invariant(&*self);
            lemma_decrement_effect(self@, id, amount);
        }
        match position(&self.users, id) {
            Some(i) => {
                proof {
                    lemma_slot_is(self.users@, id, i as int);
                }
                let user = self.users[i];
                let left = PunishedUser {
                    id: user.id,
                    times_punished: if user.times_punished > amount {
                        user.times_punished - amount
                    } else {
                        0
                    },
                    last_punish: user.last_punish,
                    pitted: user.pitted,
                };
                let mut users = self.take_users();
                if left.times_punished == 0 {
                    proof {
                        lemma_remove_same(users@, i as int);
                    }
                    users.remove(i);
                    self.users = users;
                    Some((left, true))
                } else {
                    proof {
                        lemma_update_same(users@, i as int, left);
                    }
                    users.set(i, left);
                    self.users = users;
                    Some((left, false))
                }
            },
            None => None,
        }
    }

    /// Takes one strike from the member at a moderator's request. Returns
    /// the record with one strike less; the record itself is dropped where
    /// that was the last strike. For a member without a record nothing
    /// changes and `None` is returned.
    pub fn remove_one_strike(&mut self, id: u64) -> (reply: Option<PunishedUser>)
        ensures
            final(self)@ == old(self)@.after_removal(id),
            final(self)@.wf(),
            reply == old(self)@.removal_reply(id),
            old(self)@.record(id) is None ==> reply is None && final(self)@ == old(self)@,
            final(self)@.record(id) == relieved(old(self)@.record(id), 1),
            old(self)@.same_but(final(self)@, id),
    {
        let strikes = match self.get(id) {
            Some(user) => user.times_punished,
            None => 0,
        };
        if strikes == 0 {
            return None;
        }
        match self.decrement(id, 1) {
            Some((left, _)) => Some(left),
            None => None,
        }
    }
}

} // verus!
