use discord_restricted_promotion::config::DiscordConfig;

fn config() -> DiscordConfig {
    DiscordConfig {
        channels: vec![10, 11],
        alert_sec: 30,
        required_message_length: 20,
        ignore_roles: vec![100, 101],
    }
}

#[test]
fn human_in_moderated_channel_is_checked() {
    assert!(config().needs_check(false, 10, &vec![5, 6]));
    assert!(config().needs_check(false, 11, &vec![]));
}

#[test]
fn bots_are_not_checked() {
    assert!(!config().needs_check(true, 10, &vec![]));
}

#[test]
fn other_channels_are_not_checked() {
    assert!(!config().needs_check(false, 12, &vec![]));
}

#[test]
fn exempt_roles_are_not_checked() {
    assert!(!config().needs_check(false, 10, &vec![5, 101]));
}
