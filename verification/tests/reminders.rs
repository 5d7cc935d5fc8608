use pitbot::reminder::Reminder;
use pitbot::state::BotState;

fn reminder(author: u64, message: &str, creation: u64, deadline: u64) -> Reminder {
    Reminder { author, channel: 800, message: String::from(message), creation, deadline }
}

#[test]
fn a_reminder_fires_at_its_deadline_and_not_before() {
    let mut state = BotState::new(None, None, 0);
    state.add_reminder(reminder(1, "tea", 100, 60));
    assert!(state.reminder_check(100).is_empty());
    assert!(state.reminder_check(159).is_empty());
    assert_eq!(state.reminder_check(160), vec![reminder(1, "tea", 100, 60)]);
}

#[test]
fn a_reminder_fires_once() {
    let mut state = BotState::new(None, None, 0);
    state.add_reminder(reminder(1, "tea", 100, 60));
    assert_eq!(state.reminder_check(500).len(), 1);
    assert!(state.reminder_check(500).is_empty());
    assert!(state.reminder_check(u64::MAX).is_empty());
}

#[test]
fn due_reminders_come_out_oldest_first_and_the_rest_stay() {
    let mut state = BotState::new(None, None, 0);
    state.add_reminder(reminder(1, "a", 0, 10));
    state.add_reminder(reminder(2, "b", 0, 100));
    state.add_reminder(reminder(3, "c", 5, 5));
    state.add_reminder(reminder(4, "d", 0, 50));
    assert_eq!(state.reminder_check(10), vec![reminder(1, "a", 0, 10), reminder(3, "c", 5, 5)]);
    assert_eq!(state.reminder_check(100), vec![reminder(2, "b", 0, 100), reminder(4, "d", 0, 50)]);
    assert!(state.reminder_check(1_000).is_empty());
}

#[test]
fn a_reminder_without_delay_fires_at_once() {
    let mut state = BotState::new(None, None, 0);
    state.add_reminder(reminder(1, "now", 77, 0));
    assert_eq!(state.reminder_check(77), vec![reminder(1, "now", 77, 0)]);
}

#[test]
fn a_reminder_made_after_now_waits() {
    let mut state = BotState::new(None, None, 0);
    state.add_reminder(reminder(1, "later", 200, 0));
    assert!(state.reminder_check(199).is_empty());
    assert_eq!(state.reminder_check(200).len(), 1);
}

#[test]
fn reminders_do_not_touch_the_ledger() {
    let mut state = BotState::new(None, None, 0);
    state.member_transition(1, None, true, 5);
    state.add_reminder(reminder(1, "x", 0, 0));
    assert_eq!(state.reminder_check(1).len(), 1);
    assert_eq!(state.member_count(), 1);
    assert_eq!(state.pits(), 1);
}
