//! Reminders: messages that are delivered once, after a delay.

use vstd::prelude::*;
use crate::state::{BotState, Ledger};

verus! {

/// A message to deliver once `deadline` seconds have passed since `creation`.
#[derive(Debug, PartialEq, Eq)]
pub struct Reminder {
    pub author: u64,
    pub channel: u64,
    pub message: String,
    /// When the reminder was made, in seconds since the Unix epoch.
    pub creation: u64,
    /// How long to wait, in seconds.
    pub deadline: u64,
}

/// The reminder's time has come: `deadline` seconds or more lie between
/// its making and `now`.
pub open spec fn has_fired(reminder: Reminder, now: u64) -> bool {
    now - reminder.creation >= reminder.deadline
}

/// `has_fired` as a test to apply to every reminder.
pub open spec fn fired_rule(now: u64) -> spec_fn(Reminder) -> bool {
    |reminder: Reminder| has_fired(reminder, now)
}

/// The opposite test: the reminder still has to wait.
pub open spec fn waiting_rule(now: u64) -> spec_fn(Reminder) -> bool {
    |reminder: Reminder| !has_fired(reminder, now)
}

impl Ledger {
    /// The ledger with one more reminder, behind those that are there.
    pub open spec fn after_add_reminder(self, reminder: Reminder) -> Ledger {
        Ledger { reminders: self.reminders.push(reminder), ..self }
    }

    /// The reminders to deliver at `now`, oldest first.
    pub open spec fn due_reminders(self, now: u64) -> Seq<Reminder> {
        self.reminders.filter(fired_rule(now))
    }

    /// The ledger after the reminders that are due at `now` have been
    /// handed out: the others stay, in their old order.
    pub open spec fn after_reminder_check(self, now: u64) -> Ledger {
        Ledger { reminders: self.reminders.filter(waiting_rule(now)), ..self }
    }
}

/// A check hands out each reminder or keeps it, never both: the two
/// lists together are as long as the list before, and what is kept holds
/// nothing that a second check at the same time would hand out.
pub proof fn law_reminder_fires_once(ledger: Ledger, now: u64)
    ensures
        ledger.due_reminders(now).len() + ledger.after_reminder_check(now).reminders.len()
            == ledger.reminders.len(),
        ledger.after_reminder_check(now).due_reminders(now).len() == 0,
{
    lemma_split(ledger.reminders, now);
}

/// Seen reminder by reminder: each goes to one side.
proof fn lemma_split(reminders: Seq<Reminder>, now: u64)
    ensures
        reminders.filter(fired_rule(now)).len() + reminders.filter(waiting_rule(now)).len()
            == reminders.len(),
        reminders.filter(waiting_rule(now)).filter(fired_rule(now)).len() == 0,
    decreases reminders.len(),
{
    reveal(Seq::filter);
    if reminders.len() > 0 {
        let init = reminders.drop_last();
        let last = reminders.last();
        lemma_split(init, now);
        if !has_fired(last, now) {
            init.filter(waiting_rule(now)).lemma_filter_push(last, fired_rule(now));
        }
    }
}

impl BotState {
    /// Schedules a reminder.
    pub fn add_reminder(&mut self, reminder: Reminder)
        ensures
            final(self)@ == old(self)@.after_add_reminder(reminder),
            final(self)@.wf(),
    {
        let mut reminders = self.take_reminders();
        reminders.push(reminder);
        proof {
            use_type_invariant(&*self);
        }
        self.reminders = reminders;
    }

    /// Hands out the reminders whose time has come at `now`, oldest first,
    /// and forgets them: each reminder is handed out once. The others stay
    /// as they are.
    pub fn reminder_check(&mut self, now: u64) -> (due: Vec<Reminder>)
        ensures
            due@ == old(self)@.due_reminders(now),
            final(self)@ == old(self)@.after_reminder_check(now),
            final(self)@.wf(),
    {
        let pending = self.take_reminders();
        let ghost all = pending@;
        let ghost fired = fired_rule(now);
        let ghost waits = waiting_rule(now);
        let mut due: Vec<Reminder> = Vec::new();
        let mut waiting: Vec<Reminder> = Vec::new();
        assert(all.take(0) =~= Seq::empty());
        for reminder in it: pending
            invariant
                it.seq() == all,
                fired == fired_rule(now),
                waits == waiting_rule(now),
                due@ == all.take(it.index() as int).filter(fired),
                waiting@ == all.take(it.index() as int).filter(waits),
        {
            proof {
                let k = it.index() as int;
                assert(all.take(k + 1) =~= all.take(k).push(reminder));
                all.take(k).lemma_filter_push(reminder, fired);
                all.take(k).lemma_filter_push(reminder, waits);
            }
            if now >= reminder.creation && now - reminder.creation >= reminder.deadline {
                due.push(reminder);
            } else {
                waiting.push(reminder);
            }
        }
        proof {
            assert(all.take(all.len() as int) =~= all);
            use_type_invariant(&*self);
        }
        self.reminders = waiting;
        due
    }
}

} // verus!
