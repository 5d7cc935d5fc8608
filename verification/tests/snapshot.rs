use pitbot::record::{is_valid_ledger, PunishedUser};
use pitbot::snapshot::{save_plan, SaveStep, Snapshot};
use pitbot::state::{BotState, BotStats};

fn record(id: u64, strikes: u16, last: u64, pitted: bool) -> PunishedUser {
    PunishedUser { id, times_punished: strikes, last_punish: last, pitted }
}

#[test]
fn without_a_ledger_the_state_starts_empty() {
    let state = BotState::new(None, None, 1_234);
    assert_eq!(state.member_count(), 0);
    assert_eq!(state.bans(), 0);
    assert_eq!(state.pits(), 0);
    assert_eq!(state.uptime(), 1_234);
}

#[test]
fn without_a_ledger_saved_counters_are_dropped() {
    let state = BotState::new(None, Some(BotStats { bans: 4, pits: 9 }), 1_234);
    assert_eq!(state.bans(), 0);
    assert_eq!(state.pits(), 0);
    assert_eq!(state.member_count(), 0);
}

#[test]
fn without_counters_they_start_at_zero() {
    let state = BotState::new(Some(vec![record(1, 2, 3, false)]), None, 50);
    assert_eq!(state.bans(), 0);
    assert_eq!(state.pits(), 0);
    assert_eq!(state.get(1), Some(record(1, 2, 3, false)));
    assert_eq!(state.uptime(), 50);
}

#[test]
fn nobody_is_in_the_pit_after_a_restart() {
    let state = BotState::new(Some(vec![record(1, 2, 3, true)]), None, 50);
    assert_eq!(state.get(1), Some(record(1, 2, 3, false)));
}

#[test]
fn a_saved_ledger_comes_back_as_it_was() {
    let mut state = BotState::new(None, None, 100);
    state.member_transition(3, Some(false), true, 110);
    state.member_transition(1, Some(false), true, 120);
    state.member_transition(3, Some(true), false, 130);
    state.member_transition(3, Some(false), true, 140);
    state.guild_ban_addition(99);
    state.guild_ban_addition(98);

    let snapshot = state.flatdb_save();
    assert_eq!(
        snapshot,
        Snapshot {
            users: vec![record(3, 2, 140, true), record(1, 1, 120, true)],
            stats: BotStats { bans: 2, pits: 3 },
        }
    );
    assert!(is_valid_ledger(&snapshot.users));

    let back = BotState::new(Some(snapshot.users), Some(snapshot.stats), 9_999);
    assert_eq!(back.get(3), Some(record(3, 2, 140, false)));
    assert_eq!(back.get(1), Some(record(1, 1, 120, false)));
    assert_eq!(back.member_count(), 2);
    assert_eq!(back.bans(), 2);
    assert_eq!(back.pits(), 3);
    assert_eq!(back.uptime(), 9_999);
    assert!(back.uptime() != state.uptime());

    let again = back.flatdb_save();
    let tuples: Vec<(u64, u16, u64)> =
        again.users.iter().map(|u| (u.id, u.times_punished, u.last_punish)).collect();
    assert_eq!(tuples, vec![(3, 2, 140), (1, 1, 120)]);
    assert_eq!(again.stats, BotStats { bans: 2, pits: 3 });
}

#[test]
fn reminders_are_not_carried_over() {
    let mut state = BotState::new(None, None, 100);
    state.add_reminder(pitbot::reminder::Reminder {
        author: 1,
        channel: 2,
        message: String::from("water the plants"),
        creation: 100,
        deadline: 10,
    });
    let snapshot = state.flatdb_save();
    let mut back = BotState::new(Some(snapshot.users), Some(snapshot.stats), 200);
    assert!(back.reminder_check(u64::MAX).is_empty());
}

#[test]
fn saving_does_not_change_the_state() {
    let mut state = BotState::new(None, None, 100);
    state.member_transition(3, Some(false), true, 110);
    let first = state.flatdb_save();
    let second = state.flatdb_save();
    assert_eq!(first, second);
    assert_eq!(state.get(3), Some(record(3, 1, 110, true)));
}

#[test]
fn a_save_backs_up_what_is_there_and_then_writes() {
    assert_eq!(
        save_plan(true, true),
        vec![
            SaveStep::BackupUsers,
            SaveStep::BackupStats,
            SaveStep::WriteUsers,
            SaveStep::WriteStats
        ]
    );
    assert_eq!(
        save_plan(true, false),
        vec![SaveStep::BackupUsers, SaveStep::WriteUsers, SaveStep::WriteStats]
    );
    assert_eq!(
        save_plan(false, true),
        vec![SaveStep::BackupStats, SaveStep::WriteUsers, SaveStep::WriteStats]
    );
    assert_eq!(save_plan(false, false), vec![SaveStep::WriteUsers, SaveStep::WriteStats]);
}

#[test]
fn a_list_with_a_member_twice_is_no_ledger() {
    assert!(is_valid_ledger(&vec![]));
    assert!(is_valid_ledger(&vec![record(1, 1, 0, false), record(2, 1, 0, true)]));
    assert!(!is_valid_ledger(&vec![record(1, 1, 0, false), record(1, 2, 5, false)]));
    assert!(!is_valid_ledger(&vec![
        record(1, 1, 0, false),
        record(2, 1, 0, false),
        record(3, 1, 0, false),
        record(2, 1, 0, false),
    ]));
}

#[test]
fn a_list_with_a_record_without_strikes_is_no_ledger() {
    assert!(!is_valid_ledger(&vec![record(1, 0, 0, false)]));
    assert!(!is_valid_ledger(&vec![record(1, 1, 0, false), record(2, 0, 0, false)]));
}
