//! Configuration, and which messages are checked at all.

use vstd::prelude::*;

verus! {

/// How long an advertised server stays blocked.
#[derive(Debug, Default, PartialEq, Eq, Clone, Copy, Structural)]
pub struct BanPeriodConfig {
    /// Days during which a server advertised by someone else blocks a new advertisement.
    pub day: i64,
    /// Days during which a server advertised by the same user blocks a new advertisement.
    pub day_per_user: i64,
    /// Minutes after posting during which a user may repost their own advertisement.
    pub min_per_user_start: i64,
}

/// Texts of the warnings.
#[derive(Debug, Default, PartialEq, Clone)]
pub struct MessageConfig {
    /// Language of the texts.
    pub lang: String,
    /// Emoji that frames a warning title.
    pub alert_emoji: String,
    /// Page that explains how to make an invite that never expires.
    pub no_expiration_invite_link_guide: String,
}

/// Where and how the bot moderates.
#[derive(Debug, Default, PartialEq, Clone)]
pub struct DiscordConfig {
    /// The channels that are moderated.
    pub channels: Vec<u64>,
    /// Seconds a warning stays before it and the refused message are removed.
    pub alert_sec: u64,
    /// Characters of description that a message needs besides its links.
    pub required_message_length: usize,
    /// Roles whose members are not checked.
    pub ignore_roles: Vec<u64>,
}

/// The whole configuration.
#[derive(Debug, Default, PartialEq, Clone)]
pub struct AppConfig {
    pub discord: DiscordConfig,
    pub ban_period: BanPeriodConfig,
    pub message: MessageConfig,
}

/// A member with one of these roles is exempt from the checks.
pub open spec fn exempt(ignore_roles: Seq<u64>, member_roles: Seq<u64>) -> bool {
    exists|i: int, j: int|
        0 <= i < ignore_roles.len() && 0 <= j < member_roles.len() && #[trigger] ignore_roles[i]
            == #[trigger] member_roles[j]
}

fn holds(v: &Vec<u64>, x: u64) -> (r: bool)
    ensures
        r == v@.contains(x),
{
    let mut i: usize = 0;
    while i < v.len()
        invariant
            i <= v@.len(),
            forall|j: int| 0 <= j < i ==> v@[j] != x,
        decreases v.len() - i,
    {
        if v[i] == x {
            return true;
        }
        i += 1;
    }
    false
}

impl DiscordConfig {
    /// A message is checked when a human posts it in a moderated channel and
    /// holds none of the exempt roles (`member_roles` is empty outside a guild).
    pub fn needs_check(&self, author_is_bot: bool, channel_id: u64, member_roles: &Vec<u64>) -> (r:
        bool)
        ensures
            r == (!author_is_bot && self.channels@.contains(channel_id) && !exempt(
                self.ignore_roles@,
                member_roles@,
            )),
    {
        if author_is_bot || !holds(&self.channels, channel_id) {
            return false;
        }
        let mut i: usize = 0;
        while i < self.ignore_roles.len()
            invariant
                i <= self.ignore_roles@.len(),
                forall|k: int, j: int|
                    0 <= k < i && 0 <= j < member_roles@.len() ==> self.ignore_roles@[k]
                        != member_roles@[j],
            decreases self.ignore_roles.len() - i,
        {
            if holds(member_roles, self.ignore_roles[i]) {
                proof {
                    let j = choose|j: int|
                        0 <= j < member_roles@.len() && member_roles@[j] == self.ignore_roles@[i as int];
                    assert(self.ignore_roles@[i as int] == member_roles@[j]);
                }
                return false;
            }
            i += 1;
        }
        true
    }
}

} // verus!
