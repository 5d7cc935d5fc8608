use pitbot::config::BotConfig;
use pitbot::gate::Alert;
use pitbot::record::PunishedUser;
use pitbot::state::BotState;
use pitbot::strike::{has_role, StrikeChange};

fn config(threshold: u16) -> BotConfig {
    BotConfig {
        punishment_role: 700,
        settle_time: 7,
        warn_channel: 800,
        warn_role: 900,
        warn_threshold: threshold,
    }
}

fn record(id: u64, strikes: u16, last: u64, pitted: bool) -> PunishedUser {
    PunishedUser { id, times_punished: strikes, last_punish: last, pitted }
}

#[test]
fn first_entry_makes_a_record_with_one_strike() {
    let mut state = BotState::new(None, None, 0);
    let change = state.member_transition(1, Some(false), true, 100);
    assert_eq!(
        change,
        Some(StrikeChange { previous: None, current: record(1, 1, 100, true) })
    );
    assert_eq!(state.get(1), Some(record(1, 1, 100, true)));
    assert_eq!(state.member_count(), 1);
    assert_eq!(state.pits(), 1);
    assert_eq!(state.bans(), 0);
}

#[test]
fn repeated_sightings_in_the_pit_cost_one_strike() {
    let mut state = BotState::new(None, None, 0);
    assert!(state.member_transition(1, Some(false), true, 10).is_some());
    for at in 11..40u64 {
        assert_eq!(state.member_transition(1, Some(true), true, at), None);
    }
    assert_eq!(state.get(1), Some(record(1, 1, 10, true)));
    assert_eq!(state.pits(), 1);
}

#[test]
fn a_second_entry_report_during_one_stay_is_not_counted() {
    let mut state = BotState::new(None, None, 0);
    assert!(state.member_transition(1, Some(false), true, 10).is_some());
    assert_eq!(state.member_transition(1, Some(false), true, 20), None);
    assert_eq!(state.member_transition(1, None, true, 30), None);
    assert_eq!(state.get(1), Some(record(1, 1, 10, true)));
    assert_eq!(state.pits(), 1);
}

#[test]
fn leaving_clears_the_flag_and_keeps_the_strikes() {
    let mut state = BotState::new(None, None, 0);
    state.member_transition(1, Some(false), true, 10);
    assert_eq!(state.member_transition(1, Some(true), false, 20), None);
    assert_eq!(state.get(1), Some(record(1, 1, 10, false)));
    assert_eq!(state.pits(), 1);
}

#[test]
fn each_new_stay_costs_one_more_strike() {
    let mut state = BotState::new(None, None, 0);
    state.member_transition(1, Some(false), true, 10);
    state.member_transition(1, Some(true), false, 20);
    let change = state.member_transition(1, Some(false), true, 30);
    assert_eq!(
        change,
        Some(StrikeChange {
            previous: Some(record(1, 1, 10, false)),
            current: record(1, 2, 30, true),
        })
    );
    assert_eq!(state.get(1), Some(record(1, 2, 30, true)));
    assert_eq!(state.pits(), 2);
}

#[test]
fn a_report_without_the_role_before_or_after_changes_nothing() {
    let mut state = BotState::new(None, None, 0);
    state.member_transition(1, Some(false), true, 10);
    assert_eq!(state.member_transition(1, Some(false), false, 20), None);
    assert_eq!(state.member_transition(1, None, false, 21), None);
    assert_eq!(state.member_transition(2, Some(false), false, 22), None);
    assert_eq!(state.get(1), Some(record(1, 1, 10, true)));
    assert_eq!(state.get(2), None);
    assert_eq!(state.member_count(), 1);
}

#[test]
fn a_member_seen_only_inside_the_pit_is_not_struck() {
    let mut state = BotState::new(None, None, 0);
    assert_eq!(state.member_transition(5, Some(true), true, 10), None);
    assert_eq!(state.get(5), None);
    assert_eq!(state.pits(), 0);
}

#[test]
fn an_entry_with_unknown_past_is_counted() {
    let mut state = BotState::new(None, None, 0);
    let change = state.member_transition(5, None, true, 10);
    assert_eq!(
        change,
        Some(StrikeChange { previous: None, current: record(5, 1, 10, true) })
    );
}

#[test]
fn leaving_without_a_record_changes_nothing() {
    let mut state = BotState::new(None, None, 0);
    assert_eq!(state.member_transition(5, Some(true), false, 10), None);
    assert_eq!(state.member_count(), 0);
}

#[test]
fn strikes_of_different_members_do_not_mix() {
    let mut state = BotState::new(None, None, 0);
    state.member_transition(1, Some(false), true, 10);
    state.member_transition(2, Some(false), true, 11);
    state.member_transition(1, Some(true), false, 12);
    state.member_transition(1, Some(false), true, 13);
    assert_eq!(state.get(1), Some(record(1, 2, 13, true)));
    assert_eq!(state.get(2), Some(record(2, 1, 11, true)));
    assert_eq!(state.member_count(), 2);
    assert_eq!(state.pits(), 3);
}

#[test]
fn the_strike_count_stops_at_its_limit() {
    let users = vec![record(1, u16::MAX, 5, false)];
    let mut state = BotState::new(Some(users), None, 0);
    let change = state.member_transition(1, Some(false), true, 10);
    assert_eq!(
        change,
        Some(StrikeChange {
            previous: Some(record(1, u16::MAX, 5, false)),
            current: record(1, u16::MAX, 10, true),
        })
    );
    assert_eq!(state.pits(), 1);
}

#[test]
fn upsert_or_increment_strikes_whatever_the_flag_says() {
    let mut state = BotState::new(None, None, 0);
    let first = state.upsert_or_increment(9, 1);
    assert_eq!(first.previous, None);
    assert_eq!(first.current, record(9, 1, 1, true));
    let second = state.upsert_or_increment(9, 2);
    assert_eq!(second.previous, Some(record(9, 1, 1, true)));
    assert_eq!(second.current, record(9, 2, 2, true));
    assert_eq!(state.pits(), 2);
}

#[test]
fn clear_active_only_touches_the_flag() {
    let mut state = BotState::new(None, None, 0);
    state.upsert_or_increment(9, 1);
    state.clear_active(9);
    assert_eq!(state.get(9), Some(record(9, 1, 1, false)));
    state.clear_active(9);
    assert_eq!(state.get(9), Some(record(9, 1, 1, false)));
    state.clear_active(10);
    assert_eq!(state.member_count(), 1);
}

#[test]
fn a_ban_drops_the_record_and_is_counted() {
    let mut state = BotState::new(None, None, 0);
    state.member_transition(1, Some(false), true, 10);
    state.member_transition(2, Some(false), true, 11);
    state.member_transition(3, Some(false), true, 12);
    state.guild_ban_addition(2);
    assert_eq!(state.get(2), None);
    assert_eq!(state.get(1), Some(record(1, 1, 10, true)));
    assert_eq!(state.get(3), Some(record(3, 1, 12, true)));
    assert_eq!(state.member_count(), 2);
    assert_eq!(state.bans(), 1);
    assert_eq!(state.pits(), 3);
}

#[test]
fn a_ban_of_a_member_without_record_is_counted_too() {
    let mut state = BotState::new(None, None, 0);
    state.guild_ban_addition(77);
    state.guild_ban_addition(77);
    assert_eq!(state.bans(), 2);
    assert_eq!(state.member_count(), 0);
}

#[test]
fn the_ban_counter_stops_at_its_limit() {
    let stats = pitbot::state::BotStats { bans: u64::MAX, pits: u64::MAX };
    let mut state = BotState::new(Some(vec![]), Some(stats), 0);
    state.guild_ban_addition(1);
    state.member_transition(1, None, true, 1);
    assert_eq!(state.bans(), u64::MAX);
    assert_eq!(state.pits(), u64::MAX);
    assert_eq!(state.get(1), Some(record(1, 1, 1, true)));
}

#[test]
fn has_role_looks_through_the_whole_list() {
    assert!(!has_role(&vec![], 700));
    assert!(has_role(&vec![700], 700));
    assert!(has_role(&vec![1, 2, 700], 700));
    assert!(!has_role(&vec![1, 2, 3], 700));
}

#[test]
fn a_role_update_with_the_punishment_role_strikes() {
    let cfg = config(3);
    let mut state = BotState::new(None, None, 0);
    let before = vec![1, 2];
    let after = vec![1, 700, 2];
    assert_eq!(state.guild_member_update(&cfg, 4, Some(&before), &after, 50), None);
    assert_eq!(state.get(4), Some(record(4, 1, 50, true)));
    // The member is seen again, still with the role: nothing is counted.
    assert_eq!(state.guild_member_update(&cfg, 4, Some(&after), &after, 60), None);
    assert_eq!(state.get(4), Some(record(4, 1, 50, true)));
    // The role goes away.
    assert_eq!(state.guild_member_update(&cfg, 4, Some(&after), &before, 70), None);
    assert_eq!(state.get(4), Some(record(4, 1, 50, false)));
    // Other roles come and go.
    assert_eq!(state.guild_member_update(&cfg, 4, Some(&before), &vec![2], 80), None);
    assert_eq!(state.get(4), Some(record(4, 1, 50, false)));
}

#[test]
fn a_role_update_without_the_old_roles_goes_by_the_flag() {
    let cfg = config(1);
    let mut state = BotState::new(None, None, 0);
    let roles = vec![700];
    assert_eq!(
        state.guild_member_update(&cfg, 4, None, &roles, 50),
        Some(Alert { member: 4, strikes: 1 })
    );
    assert_eq!(state.guild_member_update(&cfg, 4, None, &roles, 60), None);
    assert_eq!(state.get(4), Some(record(4, 1, 50, true)));
    // Without the old roles a member who has lost the role stays marked.
    assert_eq!(state.guild_member_update(&cfg, 4, None, &vec![], 70), None);
    assert_eq!(state.get(4), Some(record(4, 1, 50, true)));
}
