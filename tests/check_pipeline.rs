use discord_restricted_promotion::config::BanPeriodConfig;
use discord_restricted_promotion::history::{HistoryFindKey, HistoryLog, HistoryRecord};
use discord_restricted_promotion::invite::{DiscordInvite, DiscordInviteGuild, DiscordInviteLink};
use discord_restricted_promotion::pipeline::{
    check_invite_links, history_warning_of, Action, CheckedMessage, Event, MessageRef, Pipeline,
    Warning,
};

const NOW: i64 = 1_700_000_000;
const MINUTE: i64 = 60;
const DAY: i64 = 86_400;
const CHANNEL: u64 = 10;
const REQUIRED: usize = 20;

fn ban() -> BanPeriodConfig {
    BanPeriodConfig {
        day: 7,
        day_per_user: 3,
        min_per_user_start: 30,
    }
}

fn message(id: u64, author: u64, content: &str) -> CheckedMessage {
    CheckedMessage {
        id,
        channel_id: CHANNEL,
        guild_id: Some(1),
        author_id: author,
        content: content.to_string(),
        timestamp: NOW,
    }
}

fn permanent(guild: u64) -> Option<DiscordInvite> {
    Some(DiscordInvite {
        expires_at: None,
        guild: Some(DiscordInviteGuild { id: guild }),
    })
}

fn record(code: &str, guild: u64, message: u64, user: u64, timestamp: i64) -> HistoryRecord {
    HistoryRecord {
        invite_code: code.to_string(),
        invite_guild_id: guild,
        guild_id: Some(1),
        channel_id: CHANNEL,
        message_id: message,
        user_id: user,
        timestamp,
        deleted: false,
    }
}

fn reference(message_id: u64) -> MessageRef {
    MessageRef {
        channel_id: CHANNEL,
        message_id,
    }
}

/// Fifty characters of description around one permanent invite.
const FIFTY: &str = "A friendly server for board games and chess fans! https://discord.gg/boardgames";

#[test]
fn no_invite_is_refused() {
    let (p, action) = Pipeline::start(message(1, 1, "hello, please join us"), REQUIRED, NOW);
    assert!(p.is_done());
    assert!(matches!(
        action,
        Action::Warn {
            ref remove,
            warning: Warning::NoInvite
        } if remove.is_empty()
    ));
}

#[test]
fn empty_message_is_refused() {
    let (p, action) = Pipeline::start(message(1, 1, ""), REQUIRED, NOW);
    assert!(p.is_done());
    assert!(matches!(action, Action::Warn { warning: Warning::NoInvite, .. }));
}

#[test]
fn start_asks_for_each_code() {
    let (p, action) = Pipeline::start(
        message(1, 1, "discord.gg/aaa and https://discord.com/invite/bbb"),
        REQUIRED,
        NOW,
    );
    assert!(!p.is_done());
    match action {
        Action::Lookup(codes) => assert_eq!(codes, vec!["aaa".to_string(), "bbb".to_string()]),
        other => panic!("unexpected {:?}", other),
    }
}

#[test]
fn short_description_is_refused() {
    let mut log = HistoryLog::new(ban());
    let (mut p, _) = Pipeline::start(message(1, 1, "Join https://discord.gg/abc123"), REQUIRED, NOW);
    let action = p.step(&mut log, Event::LookedUp(vec![permanent(42)]));
    assert!(p.is_done());
    match action {
        Action::Warn {
            remove,
            warning: Warning::ShortDescription(n),
        } => {
            assert!(remove.is_empty());
            assert_eq!(n, 20);
        }
        other => panic!("unexpected {:?}", other),
    }
    assert!(log.records().is_empty());
}

#[test]
fn scenario_short_description() {
    let mut log = HistoryLog::new(ban());
    let (mut p, _) = Pipeline::start(
        message(1, 1, "Join my server! https://discord.gg/abc123"),
        REQUIRED,
        NOW,
    );
    let action = p.step(&mut log, Event::LookedUp(vec![permanent(42)]));
    assert!(matches!(
        action,
        Action::Warn {
            warning: Warning::ShortDescription(20),
            ..
        }
    ));
}

#[test]
fn description_exactly_long_enough_passes() {
    let mut log = HistoryLog::new(ban());
    let text = "12345678901234567890discord.gg/x";
    let (mut p, _) = Pipeline::start(message(1, 1, text), REQUIRED, NOW);
    let action = p.step(&mut log, Event::LookedUp(vec![permanent(42)]));
    assert!(matches!(action, Action::Pass { .. }));
}

#[test]
fn description_counts_characters_not_bytes() {
    let mut log = HistoryLog::new(ban());
    let text = "日本語の説明文はここにありますよ。十九 discord.gg/x";
    let (mut p, _) = Pipeline::start(message(1, 1, text), REQUIRED, NOW);
    let action = p.step(&mut log, Event::LookedUp(vec![permanent(42)]));
    assert!(matches!(action, Action::Pass { .. }));
    let text = "日本語の説明 discord.gg/x";
    let (mut p, _) = Pipeline::start(message(2, 1, text), REQUIRED, NOW);
    let action = p.step(&mut log, Event::LookedUp(vec![permanent(43)]));
    assert!(matches!(
        action,
        Action::Warn {
            warning: Warning::ShortDescription(20),
            ..
        }
    ));
}

#[test]
fn unresolved_invite_is_refused_first() {
    let mut log = HistoryLog::new(ban());
    let (mut p, _) = Pipeline::start(message(1, 1, "x discord.gg/good discord.gg/bad"), REQUIRED, NOW);
    let action = p.step(&mut log, Event::LookedUp(vec![permanent(42), None]));
    match action {
        Action::Warn {
            warning: Warning::InvalidInvites(codes),
            ..
        } => assert_eq!(codes, vec!["discord.gg/bad".to_string()]),
        other => panic!("unexpected {:?}", other),
    }
}

#[test]
fn expiring_invite_is_refused() {
    let mut log = HistoryLog::new(ban());
    let text = "A friendly server for board games and chess fans!! https://discord.gg/temp";
    let (mut p, _) = Pipeline::start(message(1, 1, text), REQUIRED, NOW);
    let answer = Some(DiscordInvite {
        expires_at: Some("2023-11-15T00:00:00+00:00".to_string()),
        guild: Some(DiscordInviteGuild { id: 42 }),
    });
    let action = p.step(&mut log, Event::LookedUp(vec![answer]));
    match action {
        Action::Warn {
            warning: Warning::ExpiringInvites(v),
            ..
        } => {
            assert_eq!(v.len(), 1);
            assert_eq!(v[0].invite_code, "temp");
            assert_eq!(v[0].expires_at, 1_700_006_400);
        }
        other => panic!("unexpected {:?}", other),
    }
    assert!(log.records().is_empty());
}

#[test]
fn scenario_novel_permanent_invite_passes() {
    let mut log = HistoryLog::new(ban());
    let (mut p, action) = Pipeline::start(message(1, 1, FIFTY), REQUIRED, NOW);
    assert!(matches!(action, Action::Lookup(_)));
    let action = p.step(&mut log, Event::LookedUp(vec![permanent(42)]));
    assert!(p.is_done());
    match action {
        Action::Pass { remove } => assert!(remove.is_empty()),
        other => panic!("unexpected {:?}", other),
    }
    let records = log.records();
    assert_eq!(records.len(), 1);
    let r = &records[0];
    assert_eq!(r.invite_code, "boardgames");
    assert_eq!(r.invite_guild_id, 42);
    assert_eq!(r.guild_id, Some(1));
    assert_eq!(r.channel_id, CHANNEL);
    assert_eq!(r.message_id, 1);
    assert_eq!(r.user_id, 1);
    assert_eq!(r.timestamp, NOW);
    assert!(!r.deleted);
}

#[test]
fn one_record_per_invite() {
    let mut log = HistoryLog::new(ban());
    let text = "Two servers, both great, come visit us all! discord.gg/one discord.gg/two";
    let (mut p, _) = Pipeline::start(message(1, 1, text), REQUIRED, NOW);
    let action = p.step(&mut log, Event::LookedUp(vec![permanent(42), permanent(43)]));
    assert!(matches!(action, Action::Pass { .. }));
    let mut codes: Vec<(String, u64)> = log
        .records()
        .iter()
        .map(|r| (r.invite_code.clone(), r.invite_guild_id))
        .collect();
    codes.sort();
    assert_eq!(codes, vec![("one".to_string(), 42), ("two".to_string(), 43)]);
}

#[test]
fn scenario_other_user_recent_code_is_refused() {
    let mut log = HistoryLog::new(ban());
    log.insert(record("boardgames", 42, 500, 7, NOW - 3 * DAY));
    let (mut p, _) = Pipeline::start(message(1, 8, FIFTY), REQUIRED, NOW);
    let action = p.step(&mut log, Event::LookedUp(vec![permanent(42)]));
    match action {
        Action::Fetch { remove, fetch } => {
            assert!(remove.is_empty());
            assert_eq!(fetch, vec![reference(500)]);
        }
        other => panic!("unexpected {:?}", other),
    }
    let action = p.step(&mut log, Event::Fetched(vec![true]));
    assert!(p.is_done());
    match action {
        Action::Warn {
            remove,
            warning: Warning::RecentlyAdvertised { links, latest_own },
        } => {
            assert!(remove.is_empty());
            assert_eq!(links, vec![reference(500)]);
            assert_eq!(latest_own, None);
        }
        other => panic!("unexpected {:?}", other),
    }
    assert_eq!(log.records().len(), 1);
}

#[test]
fn other_user_old_code_is_not_refused() {
    let mut log = HistoryLog::new(ban());
    log.insert(record("boardgames", 42, 500, 7, NOW - 8 * DAY));
    let (mut p, _) = Pipeline::start(message(1, 8, FIFTY), REQUIRED, NOW);
    let action = p.step(&mut log, Event::LookedUp(vec![permanent(42)]));
    assert!(matches!(action, Action::Pass { .. }));
}

#[test]
fn same_guild_by_another_code_is_refused() {
    let mut log = HistoryLog::new(ban());
    log.insert(record("othercode", 42, 500, 7, NOW - DAY));
    let (mut p, _) = Pipeline::start(message(1, 8, FIFTY), REQUIRED, NOW);
    let action = p.step(&mut log, Event::LookedUp(vec![permanent(42)]));
    match action {
        Action::Fetch { fetch, .. } => assert_eq!(fetch, vec![reference(500)]),
        other => panic!("unexpected {:?}", other),
    }
    let action = p.step(&mut log, Event::Fetched(vec![true]));
    assert!(matches!(
        action,
        Action::Warn {
            warning: Warning::RecentlyAdvertised { .. },
            ..
        }
    ));
}

#[test]
fn scenario_own_repost_within_grace_supersedes() {
    let mut log = HistoryLog::new(ban());
    log.insert(record("boardgames", 42, 500, 7, NOW - 2 * MINUTE));
    let (mut p, _) = Pipeline::start(message(1, 7, FIFTY), REQUIRED, NOW);
    let action = p.step(&mut log, Event::LookedUp(vec![permanent(42)]));
    match action {
        Action::Fetch { remove, fetch } => {
            assert!(remove.is_empty());
            assert_eq!(fetch, vec![reference(500)]);
        }
        other => panic!("unexpected {:?}", other),
    }
    // The earlier message still exists: it is superseded.
    let action = p.step(&mut log, Event::Fetched(vec![true]));
    match action {
        Action::Fetch { remove, fetch } => {
            assert_eq!(remove, vec![reference(500)]);
            assert_eq!(fetch, vec![reference(500)]);
        }
        other => panic!("unexpected {:?}", other),
    }
    // Once removed it is gone, and its young record is forgotten.
    let action = p.step(&mut log, Event::Fetched(vec![false]));
    assert!(p.is_done());
    match action {
        Action::Pass { remove } => assert!(remove.is_empty()),
        other => panic!("unexpected {:?}", other),
    }
    assert_eq!(log.records().len(), 1);
    assert_eq!(log.records()[0].message_id, 1);
}

#[test]
fn own_repost_after_grace_is_refused() {
    let mut log = HistoryLog::new(ban());
    log.insert(record("boardgames", 42, 500, 7, NOW - 2 * DAY));
    let (mut p, _) = Pipeline::start(message(1, 7, FIFTY), REQUIRED, NOW);
    p.step(&mut log, Event::LookedUp(vec![permanent(42)]));
    let action = p.step(&mut log, Event::Fetched(vec![true]));
    match action {
        Action::Warn {
            remove,
            warning: Warning::RecentlyAdvertised { links, .. },
        } => {
            assert!(remove.is_empty());
            assert_eq!(links, vec![reference(500)]);
        }
        other => panic!("unexpected {:?}", other),
    }
}

#[test]
fn own_repost_after_own_window_passes() {
    let mut log = HistoryLog::new(ban());
    log.insert(record("boardgames", 42, 500, 7, NOW - 4 * DAY));
    let (mut p, _) = Pipeline::start(message(1, 7, FIFTY), REQUIRED, NOW);
    let action = p.step(&mut log, Event::LookedUp(vec![permanent(42)]));
    assert!(matches!(action, Action::Pass { .. }));
}

#[test]
fn gone_old_message_is_marked_and_not_counted_this_time() {
    let mut log = HistoryLog::new(ban());
    log.insert(record("boardgames", 42, 500, 7, NOW - DAY));
    let (mut p, _) = Pipeline::start(message(1, 8, FIFTY), REQUIRED, NOW);
    p.step(&mut log, Event::LookedUp(vec![permanent(42)]));
    let action = p.step(&mut log, Event::Fetched(vec![false]));
    // The code phase found nothing that counts; the guild phase finds the marked record.
    match action {
        Action::Fetch { remove, fetch } => {
            assert!(remove.is_empty());
            assert_eq!(fetch, vec![reference(500)]);
        }
        other => panic!("unexpected {:?}", other),
    }
    assert!(log.records()[0].deleted);
    let action = p.step(&mut log, Event::Fetched(vec![false]));
    match action {
        Action::Warn {
            warning: Warning::RecentlyAdvertised { links, latest_own },
            ..
        } => {
            assert!(links.is_empty());
            assert_eq!(latest_own, Some(NOW - DAY));
        }
        other => panic!("unexpected {:?}", other),
    }
}

#[test]
fn scenario_deleted_event_marks_old_record() {
    let mut log = HistoryLog::new(ban());
    log.insert(record("boardgames", 42, 500, 7, NOW - 2 * DAY));
    log.delete(500, NOW);
    assert_eq!(log.records().len(), 1);
    assert!(log.records()[0].deleted);
    // Still counted for the ban windows ...
    let found = log.validate(1, CHANNEL, 8, &HistoryFindKey::InviteCode("boardgames".to_string()), NOW);
    assert_eq!(found.len(), 1);
    // ... but no longer a live record of its author ...
    assert!(log.get_records_by_user(Some(1), 7).is_empty());
    // ... and left out of the message links of a warning.
    match history_warning_of(&found) {
        Warning::RecentlyAdvertised { links, latest_own } => {
            assert!(links.is_empty());
            assert_eq!(latest_own, Some(NOW - 2 * DAY));
        }
        other => panic!("unexpected {:?}", other),
    }
}

#[test]
fn warning_lists_live_messages_only() {
    let mut gone = record("a", 42, 501, 7, NOW - DAY);
    gone.deleted = true;
    let kept = vec![record("a", 42, 500, 7, NOW - 2 * DAY), gone];
    match history_warning_of(&kept) {
        Warning::RecentlyAdvertised { links, latest_own } => {
            assert_eq!(links, vec![reference(500)]);
            assert_eq!(latest_own, None);
        }
        other => panic!("unexpected {:?}", other),
    }
}

#[test]
fn warning_names_the_latest_gone_advertisement() {
    let mut a = record("a", 42, 501, 7, NOW - 2 * DAY);
    a.deleted = true;
    let mut b = record("a", 42, 502, 7, NOW - DAY);
    b.deleted = true;
    let mut c = record("a", 42, 503, 7, NOW - 3 * DAY);
    c.deleted = true;
    match history_warning_of(&vec![a, b, c]) {
        Warning::RecentlyAdvertised { links, latest_own } => {
            assert!(links.is_empty());
            assert_eq!(latest_own, Some(NOW - DAY));
        }
        other => panic!("unexpected {:?}", other),
    }
}

#[test]
fn link_check_prefers_invalid_to_expiring() {
    let links = vec![
        DiscordInviteLink {
            invite_link: "discord.gg/a".to_string(),
            invite_code: "a".to_string(),
            expires_at: Some(5),
            guild_id: Some(1),
        },
        DiscordInviteLink {
            invite_link: "discord.gg/b".to_string(),
            invite_code: "b".to_string(),
            expires_at: None,
            guild_id: None,
        },
    ];
    match check_invite_links(&links) {
        Some(Warning::InvalidInvites(links)) => assert_eq!(links, vec!["discord.gg/b".to_string()]),
        other => panic!("unexpected {:?}", other),
    }
    assert!(check_invite_links(&links[..1].iter().map(|l| DiscordInviteLink {
        invite_link: l.invite_link.clone(),
        invite_code: l.invite_code.clone(),
        expires_at: None,
        guild_id: l.guild_id,
    }).collect()).is_none());
}

#[test]
fn event_out_of_turn_abandons() {
    let mut log = HistoryLog::new(ban());
    let (mut p, _) = Pipeline::start(message(1, 1, FIFTY), REQUIRED, NOW);
    let action = p.step(&mut log, Event::Fetched(vec![true]));
    assert!(matches!(action, Action::Abandon));
    assert!(p.is_done());
    let action = p.step(&mut log, Event::LookedUp(vec![permanent(42)]));
    assert!(matches!(action, Action::Abandon));
    assert!(log.records().is_empty());
}

#[test]
fn edited_message_replaces_its_records() {
    let mut log = HistoryLog::new(ban());
    let (mut p, _) = Pipeline::start(message(1, 1, FIFTY), REQUIRED, NOW);
    p.step(&mut log, Event::LookedUp(vec![permanent(42)]));
    let edited = "A friendly server for board games and chess fans!! https://discord.gg/newcode";
    let (mut p, _) = Pipeline::start(message(1, 1, edited), REQUIRED, NOW + MINUTE);
    let action = p.step(&mut log, Event::LookedUp(vec![permanent(42)]));
    assert!(matches!(action, Action::Pass { .. }));
    assert_eq!(log.records().len(), 1);
    assert_eq!(log.records()[0].invite_code, "newcode");
}
