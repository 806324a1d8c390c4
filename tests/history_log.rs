use discord_restricted_promotion::config::BanPeriodConfig;
use discord_restricted_promotion::history::{HistoryFindKey, HistoryLog, HistoryRecord};

const NOW: i64 = 1_700_000_000;
const MINUTE: i64 = 60;
const DAY: i64 = 86_400;

fn ban() -> BanPeriodConfig {
    BanPeriodConfig {
        day: 7,
        day_per_user: 3,
        min_per_user_start: 30,
    }
}

fn record(code: &str, guild: u64, message: u64, user: u64, timestamp: i64) -> HistoryRecord {
    HistoryRecord {
        invite_code: code.to_string(),
        invite_guild_id: guild,
        guild_id: Some(1),
        channel_id: 10,
        message_id: message,
        user_id: user,
        timestamp,
        deleted: false,
    }
}

fn code(c: &str) -> HistoryFindKey {
    HistoryFindKey::InviteCode(c.to_string())
}

fn message_ids(v: &[HistoryRecord]) -> Vec<u64> {
    v.iter().map(|r| r.message_id).collect()
}

#[test]
fn new_history_is_empty() {
    let log = HistoryLog::new(ban());
    assert!(log.records().is_empty());
    assert_eq!(log.ban_period(), ban());
}

#[test]
fn insert_replaces_same_message_and_code() {
    let mut log = HistoryLog::new(ban());
    log.insert(record("abc", 5, 100, 1, NOW));
    log.insert(record("def", 5, 100, 1, NOW));
    log.insert(record("abc", 6, 100, 1, NOW + 1));
    assert_eq!(log.records().len(), 2);
    let abc: Vec<&HistoryRecord> = log.records().iter().filter(|r| r.invite_code == "abc").collect();
    assert_eq!(abc.len(), 1);
    assert_eq!(abc[0].invite_guild_id, 6);
    assert_eq!(abc[0].timestamp, NOW + 1);
}

#[test]
fn delete_within_grace_removes() {
    let mut log = HistoryLog::new(ban());
    log.insert(record("abc", 5, 100, 1, NOW - 10 * MINUTE));
    log.delete(100, NOW);
    assert!(log.records().is_empty());
}

#[test]
fn delete_after_grace_marks() {
    let mut log = HistoryLog::new(ban());
    log.insert(record("abc", 5, 100, 1, NOW - 31 * MINUTE));
    log.insert(record("xyz", 5, 200, 1, NOW - 31 * MINUTE));
    log.delete(100, NOW);
    assert_eq!(log.records().len(), 2);
    let r = log.records().iter().find(|r| r.message_id == 100).unwrap();
    assert!(r.deleted);
    let other = log.records().iter().find(|r| r.message_id == 200).unwrap();
    assert!(!other.deleted);
}

#[test]
fn delete_at_grace_boundary_marks() {
    let mut log = HistoryLog::new(ban());
    log.insert(record("abc", 5, 100, 1, NOW - 30 * MINUTE));
    log.delete(100, NOW);
    assert_eq!(log.records().len(), 1);
    assert!(log.records()[0].deleted);
}

#[test]
fn delete_past_horizon_removes() {
    let mut log = HistoryLog::new(ban());
    log.insert(record("abc", 5, 100, 1, NOW - 7 * DAY));
    log.insert(record("abc", 5, 101, 1, NOW - 7 * DAY + 1));
    log.delete(100, NOW);
    log.delete(101, NOW);
    assert_eq!(log.records().len(), 1);
    assert_eq!(log.records()[0].message_id, 101);
    assert!(log.records()[0].deleted);
}

#[test]
fn delete_twice_changes_nothing() {
    let mut log = HistoryLog::new(ban());
    log.insert(record("abc", 5, 100, 1, NOW - 2 * DAY));
    log.insert(record("new", 5, 101, 1, NOW - MINUTE));
    log.delete(100, NOW);
    log.delete(101, NOW);
    let once: Vec<(u64, bool)> = log.records().iter().map(|r| (r.message_id, r.deleted)).collect();
    log.delete(100, NOW + 5);
    log.delete(101, NOW + 5);
    let twice: Vec<(u64, bool)> = log.records().iter().map(|r| (r.message_id, r.deleted)).collect();
    assert_eq!(once, vec![(100, true)]);
    assert_eq!(once, twice);
}

#[test]
fn delete_of_unknown_message_changes_nothing() {
    let mut log = HistoryLog::new(ban());
    log.insert(record("abc", 5, 100, 1, NOW));
    log.delete(999, NOW);
    assert_eq!(log.records().len(), 1);
    assert!(!log.records()[0].deleted);
}

#[test]
fn bulk_delete_handles_each_message() {
    let mut log = HistoryLog::new(ban());
    log.insert(record("a", 5, 100, 1, NOW - MINUTE));
    log.insert(record("b", 5, 101, 1, NOW - DAY));
    log.insert(record("c", 5, 102, 1, NOW - DAY));
    log.delete_all(&vec![100, 101], NOW);
    let left: Vec<(u64, bool)> = log.records().iter().map(|r| (r.message_id, r.deleted)).collect();
    assert_eq!(left, vec![(101, true), (102, false)]);
}

#[test]
fn validate_by_code_and_by_guild() {
    let mut log = HistoryLog::new(ban());
    log.insert(record("abc", 5, 100, 1, NOW - DAY));
    log.insert(record("def", 6, 101, 1, NOW - DAY));
    let by_code = log.validate(999, 10, 2, &code("abc"), NOW);
    assert_eq!(message_ids(&by_code), vec![100]);
    let by_guild = log.validate(999, 10, 2, &HistoryFindKey::InviteGuildId(6), NOW);
    assert_eq!(message_ids(&by_guild), vec![101]);
}

#[test]
fn validate_skips_own_message_and_other_channels() {
    let mut log = HistoryLog::new(ban());
    log.insert(record("abc", 5, 100, 1, NOW - DAY));
    let mut elsewhere = record("abc", 5, 101, 1, NOW - DAY);
    elsewhere.channel_id = 11;
    log.insert(elsewhere);
    assert!(log.validate(100, 10, 2, &code("abc"), NOW).is_empty());
    assert_eq!(message_ids(&log.validate(999, 11, 2, &code("abc"), NOW)), vec![101]);
}

#[test]
fn other_author_blocked_for_others_window() {
    let mut log = HistoryLog::new(ban());
    log.insert(record("abc", 5, 100, 1, NOW - 5 * DAY));
    log.insert(record("abc", 5, 101, 1, NOW - 8 * DAY));
    assert_eq!(message_ids(&log.validate(999, 10, 2, &code("abc"), NOW)), vec![100]);
}

#[test]
fn same_author_blocked_only_for_own_window() {
    let mut log = HistoryLog::new(ban());
    log.insert(record("abc", 5, 100, 1, NOW - 5 * DAY));
    log.insert(record("abc", 5, 101, 1, NOW - 2 * DAY));
    assert_eq!(message_ids(&log.validate(999, 10, 1, &code("abc"), NOW)), vec![101]);
    assert_eq!(
        message_ids(&log.validate(999, 10, 2, &code("abc"), NOW)),
        vec![100, 101]
    );
}

#[test]
fn window_edges_are_exclusive() {
    let mut log = HistoryLog::new(ban());
    log.insert(record("abc", 5, 100, 1, NOW - 7 * DAY));
    log.insert(record("abc", 5, 101, 1, NOW - 7 * DAY + 1));
    assert_eq!(message_ids(&log.validate(999, 10, 2, &code("abc"), NOW)), vec![101]);
}

#[test]
fn insert_outside_windows_is_not_found() {
    let mut log = HistoryLog::new(ban());
    log.insert(record("abc", 5, 100, 1, NOW - 8 * DAY));
    assert!(log.validate(999, 10, 1, &code("abc"), NOW).is_empty());
    assert!(log
        .validate(999, 10, 1, &HistoryFindKey::InviteGuildId(5), NOW)
        .is_empty());
}

#[test]
fn soft_deleted_records_still_block() {
    let mut log = HistoryLog::new(ban());
    log.insert(record("abc", 5, 100, 1, NOW - DAY));
    log.delete(100, NOW);
    let found = log.validate(999, 10, 2, &code("abc"), NOW);
    assert_eq!(message_ids(&found), vec![100]);
    assert!(found[0].deleted);
}

#[test]
fn records_by_user_are_live_ones_of_the_guild() {
    let mut log = HistoryLog::new(ban());
    log.insert(record("a", 5, 100, 1, NOW - DAY));
    log.insert(record("b", 5, 101, 1, NOW - DAY));
    log.insert(record("c", 5, 102, 2, NOW - DAY));
    let mut other_guild = record("d", 5, 103, 1, NOW - DAY);
    other_guild.guild_id = Some(9);
    log.insert(other_guild);
    let mut no_guild = record("e", 5, 104, 1, NOW - DAY);
    no_guild.guild_id = None;
    log.insert(no_guild);
    log.delete(101, NOW);
    assert_eq!(message_ids(&log.get_records_by_user(Some(1), 1)), vec![100]);
    assert!(log.get_records_by_user(None, 1).is_empty());
}

#[test]
fn extreme_ban_periods_do_not_overflow() {
    let mut log = HistoryLog::new(BanPeriodConfig {
        day: i64::MAX,
        day_per_user: i64::MIN,
        min_per_user_start: i64::MAX,
    });
    log.insert(record("abc", 5, 100, 1, i64::MIN));
    assert_eq!(message_ids(&log.validate(999, 10, 2, &code("abc"), i64::MAX)), vec![100]);
    assert!(log.validate(999, 10, 1, &code("abc"), i64::MAX).is_empty());
    log.delete(100, i64::MIN);
    assert!(log.records().is_empty());
}
