//! The decay engine: forgives one strike of every record that has been
//! left alone for the settle time, and drops the records that have no
//! strike left.

use vstd::prelude::*;
use crate::config::BotConfig;
use crate::record::{
    distinct_ids, lemma_distinct_prefix, lemma_push_other, lemma_slot_is, record_of, slot, tracks,
    valid_ledger, PunishedUser,
};
use crate::state::{BotState, Ledger};

verus! {

/// What one pass over the ledger did.
#[derive(Clone, Copy, Debug, PartialEq, Eq, Structural)]
pub struct DecayReport {
    /// Records in the ledger when the pass began.
    pub total_records: usize,
    /// Records that lost a strike.
    pub forgiven: u64,
    /// Records that were dropped because no strike was left.
    pub cleaned: u64,
}

/// One strike less, and never less than none.
pub open spec fn lowered(strikes: u16) -> u16 {
    if strikes > 0 {
        (strikes - 1) as u16
    } else {
        0
    }
}

/// The record has been left alone for the settle time: `settle` seconds or
/// more lie between its clock and `now`.
pub open spec fn is_due(user: PunishedUser, settle: int, now: u64) -> bool {
    now - user.last_punish >= settle
}

/// The record after a pass at `now`: a record that is due loses a strike
/// and its clock starts anew; any other record stays as it is.
pub open spec fn aged(user: PunishedUser, settle: int, now: u64) -> PunishedUser {
    if is_due(user, settle, now) {
        PunishedUser { times_punished: lowered(user.times_punished), last_punish: now, ..user }
    } else {
        user
    }
}

/// What a pass at `now` leaves of the record: nothing, where no strike is
/// left.
pub open spec fn survivor(user: PunishedUser, settle: int, now: u64) -> Option<PunishedUser> {
    if aged(user, settle, now).times_punished > 0 {
        Some(aged(user, settle, now))
    } else {
        None
    }
}

/// What a pass at `now` leaves of a member's record, if the member has one.
pub open spec fn decayed(previous: Option<PunishedUser>, settle: int, now: u64) -> Option<
    PunishedUser,
> {
    match previous {
        Some(user) => survivor(user, settle, now),
        None => None,
    }
}

/// `survivor` as a rule to apply to every record.
pub open spec fn decay_rule(settle: int, now: u64) -> spec_fn(PunishedUser) -> Option<
    PunishedUser,
> {
    |user: PunishedUser| survivor(user, settle, now)
}

/// `is_due` as a test to apply to every record.
pub open spec fn due_rule(settle: int, now: u64) -> spec_fn(PunishedUser) -> bool {
    |user: PunishedUser| is_due(user, settle, now)
}

impl Ledger {
    /// The ledger after a pass at `now` with a settle time of `settle`
    /// seconds: the survivors, in their old order.
    pub open spec fn after_decay(self, settle: int, now: u64) -> Ledger {
        Ledger { users: self.users.filter_map(decay_rule(settle, now)), ..self }
    }

    /// `next` holds of every member's record what a pass at `now` leaves of
    /// it, and no other record.
    pub open spec fn decays_to(self, next: Ledger, settle: int, now: u64) -> bool {
        forall|id: u64| #[trigger] next.record(id) == decayed(self.record(id), settle, now)
    }

    /// How many records a pass at `now` finds due.
    pub open spec fn due_count(self, settle: int, now: u64) -> nat {
        self.users.filter(due_rule(settle, now)).len()
    }

    /// How many records a pass at `now` drops.
    pub open spec fn dropped_count(self, settle: int, now: u64) -> int {
        self.users.len() - self.after_decay(settle, now).users.len()
    }
}

/// Every record that a pass leaves is what is left of a record that was
/// there before, and no more records are left than there were.
pub proof fn lemma_survivors(users: Seq<PunishedUser>, settle: int, now: u64)
    ensures
        users.filter_map(decay_rule(settle, now)).len() <= users.len(),
        forall|k: int|
            0 <= k < users.filter_map(decay_rule(settle, now)).len() ==> tracks(
                users,
                (#[trigger] users.filter_map(decay_rule(settle, now))[k]).id,
            ),
    decreases users.len(),
{
    let rule = decay_rule(settle, now);
    let left = users.filter_map(rule);
    if users.len() > 0 {
        let init = users.drop_last();
        lemma_survivors(init, settle, now);
        assert forall|k: int| 0 <= k < left.len() implies tracks(users, (#[trigger] left[k]).id) by {
            if k < init.filter_map(rule).len() {
                assert(left[k] == init.filter_map(rule)[k]);
                assert(tracks(init, init.filter_map(rule)[k].id));
                let j = choose|j: int| 0 <= j < init.len() && init[j].id == left[k].id;
                assert(users[j].id == left[k].id);
            } else {
                assert(left[k] == aged(users.last(), settle, now));
                assert(users[users.len() - 1].id == left[k].id);
            }
        }
    }
}

/// A pass keeps a ledger a ledger.
pub proof fn lemma_decay_keeps_ledger(users: Seq<PunishedUser>, settle: int, now: u64)
    requires
        valid_ledger(users),
    ensures
        valid_ledger(users.filter_map(decay_rule(settle, now))),
{
    lemma_decay_by_member(users, settle, now, 0);
}

/// A pass treats each member's record by the same rule: the member's
/// record afterwards is what is left of the member's record before.
pub proof fn lemma_decay_by_member(users: Seq<PunishedUser>, settle: int, now: u64, id: u64)
    requires
        valid_ledger(users),
    ensures
        valid_ledger(users.filter_map(decay_rule(settle, now))),
        record_of(users.filter_map(decay_rule(settle, now)), id) == decayed(
            record_of(users, id),
            settle,
            now,
        ),
    decreases users.len(),
{
    let rule = decay_rule(settle, now);
    let left = users.filter_map(rule);
    if users.len() > 0 {
        let init = users.drop_last();
        let last = users.last();
        let init_left = init.filter_map(rule);
        lemma_decay_by_member(init, settle, now, id);
        lemma_survivors(init, settle, now);
        // The last member has no record among the others, before or after.
        assert(!tracks(init, last.id)) by {
            if tracks(init, last.id) {
                let j = choose|j: int| 0 <= j < init.len() && init[j].id == last.id;
                assert(users[j].id != users[users.len() - 1].id);
            }
        }
        assert(!tracks(init_left, last.id)) by {
            if tracks(init_left, last.id) {
                let k = choose|k: int| 0 <= k < init_left.len() && init_left[k].id == last.id;
                assert(tracks(init, init_left[k].id));
            }
        }
        assert(distinct_ids(left)) by {
            assert forall|a: int, b: int| 0 <= a < b < left.len() implies left[a].id
                != left[b].id by {
                if b < init_left.len() {
                    assert(init_left[a].id != init_left[b].id);
                } else {
                    assert(left[b].id == last.id);
                    assert(left[a] == init_left[a]);
                }
            }
        }
        assert(valid_ledger(left));
        if id == last.id {
            lemma_slot_is(users, id, users.len() - 1);
            if survivor(last, settle, now) is Some {
                lemma_slot_is(left, id, left.len() - 1);
            } else {
                assert(left == init_left);
            }
        } else {
            lemma_push_other(init, last, id);
            assert(init.push(last) =~= users);
            if survivor(last, settle, now) is Some {
                let rest = aged(last, settle, now);
                assert(left =~= init_left.push(rest));
                lemma_push_other(init_left, rest, id);
            } else {
                assert(left == init_left);
            }
        }
    }
}

/// A pass takes exactly one strike from a record that has been left alone
/// for the settle time and starts its clock anew; the record is dropped
/// where that was its last strike.
pub proof fn law_decay_forgives_one(ledger: Ledger, settle: int, now: u64, user: PunishedUser)
    requires
        ledger.wf(),
        ledger.record(user.id) == Some(user),
        is_due(user, settle, now),
    ensures
        ledger.after_decay(settle, now).wf(),
        user.times_punished > 1 ==> ledger.after_decay(settle, now).record(user.id) == Some(
            PunishedUser {
                id: user.id,
                times_punished: (user.times_punished - 1) as u16,
                last_punish: now,
                pitted: user.pitted,
            },
        ),
        user.times_punished <= 1 ==> ledger.after_decay(settle, now).record(user.id) is None,
{
    lemma_decay_by_member(ledger.users, settle, now, user.id);
}

/// A pass leaves alone every record that has not been left alone for the
/// settle time, and gives no record to a member who had none.
pub proof fn law_decay_spares_fresh(ledger: Ledger, settle: int, now: u64, id: u64)
    requires
        ledger.wf(),
        ledger.record(id) matches Some(user) ==> !is_due(user, settle, now),
    ensures
        ledger.after_decay(settle, now).wf(),
        ledger.after_decay(settle, now).record(id) == ledger.record(id),
{
    lemma_decay_by_member(ledger.users, settle, now, id);
    if ledger.record(id) is Some {
        let i = slot(ledger.users, id);
        assert(ledger.users[i].times_punished > 0);
    }
}

/// A second pass that comes less than the settle time after the first
/// finds nothing to forgive in a record that the first pass touched, and
/// leaves it as the first pass left it.
pub proof fn law_decay_settles(
    ledger: Ledger,
    settle: int,
    first: u64,
    second: u64,
    user: PunishedUser,
)
    requires
        ledger.wf(),
        ledger.record(user.id) == Some(user),
        is_due(user, settle, first),
        second - first < settle,
    ensures
        ledger.after_decay(settle, first).record(user.id) matches Some(left) ==> !is_due(
            left,
            settle,
            second,
        ),
        ledger.after_decay(settle, first).after_decay(settle, second).record(user.id)
            == ledger.after_decay(settle, first).record(user.id),
{
    law_decay_forgives_one(ledger, settle, first, user);
    law_decay_spares_fresh(ledger.after_decay(settle, first), settle, second, user.id);
}

/// A pass that finds no record due changes nothing and reports nothing
/// forgiven and nothing dropped.
pub proof fn law_decay_idle(ledger: Ledger, settle: int, now: u64)
    requires
        ledger.wf(),
        forall|i: int| 0 <= i < ledger.users.len() ==> !is_due(#[trigger] ledger.users[i], settle, now),
    ensures
        ledger.after_decay(settle, now) == ledger,
        ledger.due_count(settle, now) == 0,
        ledger.dropped_count(settle, now) == 0,
{
    lemma_idle_pass(ledger.users, settle, now);
}

/// Seen record by record: where none is due, all are kept as they are.
proof fn lemma_idle_pass(users: Seq<PunishedUser>, settle: int, now: u64)
    requires
        valid_ledger(users),
        forall|i: int| 0 <= i < users.len() ==> !is_due(#[trigger] users[i], settle, now),
    ensures
        users.filter_map(decay_rule(settle, now)) == users,
        users.filter(due_rule(settle, now)).len() == 0,
    decreases users.len(),
{
    reveal(Seq::filter);
    if users.len() > 0 {
        let init = users.drop_last();
        assert(valid_ledger(init)) by {
            assert(init.push(users.last()) =~= users);
            lemma_distinct_prefix(init, users.last());
        }
        lemma_idle_pass(init, settle, now);
        assert(!is_due(users[users.len() - 1], settle, now));
        assert(users[users.len() - 1].times_punished > 0);
        assert(users.filter_map(decay_rule(settle, now)) =~= users);
    } else {
        assert(users.filter_map(decay_rule(settle, now)) =~= users);
    }
}

impl BotState {
    /// Runs one pass at `now`. Every record whose clock is at least the
    /// settle time behind `now` loses one strike and has its clock set to
    /// `now`; records that are left without a strike are dropped. A second
    /// pass before the settle time has gone by finds nothing to do for the
    /// records that the first one touched.
    pub fn periodic_strike_removal(&mut self, config: &BotConfig, now: u64) -> (report:
        DecayReport)
        ensures
            final(self)@ == old(self)@.after_decay(config.settle_secs(), now),
            final(self)@.wf(),
            report.total_records == old(self)@.users.len(),
            report.forgiven == old(self)@.due_count(config.settle_secs(), now),
            report.cleaned == old(self)@.dropped_count(config.settle_secs(), now),
            old(self)@.decays_to(final(self)@, config.settle_secs(), now),
    {
        proof {
            use_type_invariant(&*self);
        }
        let settle = config.settle_duration();
        let users = self.take_users();
        let ghost rule = decay_rule(settle as int, now);
        let ghost due = due_rule(settle as int, now);
        let mut kept: Vec<PunishedUser> = Vec::new();
        let mut forgiven: u64 = 0;
        let mut cleaned: u64 = 0;
        let mut i: usize = 0;
        assert(users@.take(0) =~= Seq::empty());
        while i < users.len()
            invariant
                i <= users.len(),
                rule == decay_rule(settle as int, now),
                due == due_rule(settle as int, now),
                kept@ == users@.take(i as int).filter_map(rule),
                forgiven == users@.take(i as int).filter(due).len(),
                forgiven <= i,
                kept.len() + cleaned == i,
            decreases users.len() - i,
        {
            let user = users[i];
            proof {
                users@.lemma_filter_map_take_succ(rule, i as int);
                assert(users@.take(i + 1) =~= users@.take(i as int).push(user));
                users@.take(i as int).lemma_filter_push(user, due);
            }
            let mut left = user;
            if now >= user.last_punish && now - user.last_punish >= settle {
                left =
                PunishedUser {
                    id: user.id,
                    times_punished: if user.times_punished > 0 {
                        user.times_punished - 1
                    } else {
                        0
                    },
                    last_punish: now,
                    pitted: user.pitted,
                };
                forgiven += 1;
            }
            assert(left == aged(user, settle as int, now));
            if left.times_punished > 0 {
                kept.push(left);
                assert(kept@ =~= users@.take(i + 1).filter_map(rule));
            } else {
                cleaned += 1;
            }
            i += 1;
        }
        proof {
            assert(users@.take(users.len() as int) =~= users@);
            lemma_decay_keeps_ledger(users@, settle as int, now);
            assert forall|id: u64| #[trigger]
                record_of(kept@, id) == decayed(record_of(users@, id), settle as int, now) by {
                lemma_decay_by_member(users@, settle as int, now, id);
            }
        }
        let total = users.len();
        self.users = kept;
        DecayReport { total_records: total, forgiven, cleaned }
    }
}

} // verus!
