//! The notification gate: decides when moderators are alerted.

use vstd::prelude::*;
use crate::strike::StrikeChange;

verus! {

/// What is handed to the notifier when a member crosses the threshold.
#[derive(Clone, Copy, Debug, PartialEq, Eq, Structural)]
pub struct Alert {
    pub member: u64,
    pub strikes: u16,
}

/// An alert is owed exactly when the count moves from below the threshold
/// to the threshold or above it.
pub open spec fn crosses(previous: u16, current: u16, threshold: u16) -> bool {
    previous < threshold && current >= threshold
}

/// Tells whether a change of the strike count from `previous` to `current`
/// must alert the moderators.
pub fn should_alert(previous: u16, current: u16, threshold: u16) -> (fire: bool)
    ensures
        fire == crosses(previous, current, threshold),
{
    previous < threshold && current >= threshold
}

/// A count that has crossed the threshold calls for no second alert while
/// it stays there: whatever it changes to next, that change is no crossing.
pub proof fn law_alert_once(previous: u16, current: u16, next: u16, threshold: u16)
    requires
        crosses(previous, current, threshold),
    ensures
        !crosses(current, next, threshold),
{
}

/// The strike count before a change: none where there was no record.
pub open spec fn strikes_before(change: StrikeChange) -> u16 {
    match change.previous {
        Some(user) => user.times_punished,
        None => 0,
    }
}

/// The alert that a strike calls for: one where the count crosses the
/// threshold, none otherwise.
pub open spec fn alert_owed(change: StrikeChange, threshold: u16) -> Option<Alert> {
    if crosses(strikes_before(change), change.current.times_punished, threshold) {
        Some(Alert { member: change.current.id, strikes: change.current.times_punished })
    } else {
        None
    }
}

/// Evaluates a strike: returns the alert to send to the moderators, if the
/// strike took the member across the threshold.
pub fn evaluate(change: &StrikeChange, threshold: u16) -> (alert: Option<Alert>)
    ensures
        alert == alert_owed(*change, threshold),
{
    let previous = match change.previous {
        Some(user) => user.times_punished,
        None => 0,
    };
    if should_alert(previous, change.current.times_punished, threshold) {
        Some(Alert { member: change.current.id, strikes: change.current.times_punished })
    } else {
        None
    }
}

} // verus!
