//! The ordered checks that an advertisement goes through, as a state machine:
//! the caller performs the lookups, fetches and removals that it asks for and
//! hands back what came of them.

use vstd::prelude::*;

use crate::history::{
    after_delete, blocking, marked, other_key, survives, lemma_filter_keeps_all, lemma_filter_keeps_none, record_views, FindKeyView, HistoryFindKey, HistoryLog, HistoryRecord,
    RecordView, cutoff_minutes, grace_start, upserted,
};
use crate::invite::{
    extract, link_views, links_total, lemma_links_inside, resolve_all, DiscordInvite, DiscordInviteLink,
    InviteFinder, InviteLinkView,
};
use crate::config::BanPeriodConfig;

verus! {

/// What the checks read of a posted (or edited) message.
#[derive(Debug)]
pub struct CheckedMessage {
    pub id: u64,
    pub channel_id: u64,
    /// The guild it was posted in.
    pub guild_id: Option<u64>,
    pub author_id: u64,
    pub content: String,
    /// When it was posted (unix seconds).
    pub timestamp: i64,
}

/// A checked message as the contracts see it.
pub struct MessageView {
    pub id: u64,
    pub channel_id: u64,
    pub guild_id: Option<u64>,
    pub author_id: u64,
    pub content: Seq<char>,
    pub timestamp: i64,
}

impl View for CheckedMessage {
    type V = MessageView;

    open spec fn view(&self) -> MessageView {
        MessageView {
            id: self.id,
            channel_id: self.channel_id,
            guild_id: self.guild_id,
            author_id: self.author_id,
            content: self.content@,
            timestamp: self.timestamp,
        }
    }
}

/// A chat message, by channel and id.
#[derive(Debug, Clone, Copy, PartialEq, Eq, Structural)]
pub struct MessageRef {
    pub channel_id: u64,
    pub message_id: u64,
}

/// The message a record was made for.
pub open spec fn ref_of(r: RecordView) -> MessageRef {
    MessageRef { channel_id: r.channel_id, message_id: r.message_id }
}

/// An invite that expires, with the moment it does (unix seconds).
#[derive(Debug)]
pub struct ExpiringInvite {
    pub invite_code: String,
    pub expires_at: i64,
}

/// Why a message is refused.
#[derive(Debug)]
pub enum Warning {
    /// The message holds no invite link.
    NoInvite,
    /// These invite links lead to no guild.
    InvalidInvites(Vec<String>),
    /// The text besides the links is shorter than this many characters.
    ShortDescription(usize),
    /// These invites expire; only permanent ones are accepted.
    ExpiringInvites(Vec<ExpiringInvite>),
    /// The server was advertised recently: by the messages of `links`, or,
    /// where those are all gone, by the author at `latest_own` (unix seconds).
    RecentlyAdvertised { links: Vec<MessageRef>, latest_own: Option<i64> },
}

/// A warning as the contracts see it.
pub enum WarningView {
    NoInvite,
    InvalidInvites(Seq<Seq<char>>),
    ShortDescription(usize),
    ExpiringInvites(Seq<(Seq<char>, i64)>),
    RecentlyAdvertised { links: Seq<MessageRef>, latest_own: Option<i64> },
}

pub open spec fn strings_view(v: Seq<String>) -> Seq<Seq<char>> {
    v.map_values(|s: String| s@)
}

pub open spec fn expiring_view(v: Seq<ExpiringInvite>) -> Seq<(Seq<char>, i64)> {
    v.map_values(|e: ExpiringInvite| (e.invite_code@, e.expires_at))
}

impl View for Warning {
    type V = WarningView;

    open spec fn view(&self) -> WarningView {
        match self {
            Warning::NoInvite => WarningView::NoInvite,
            Warning::InvalidInvites(links) => WarningView::InvalidInvites(strings_view(links@)),
            Warning::ShortDescription(n) => WarningView::ShortDescription(*n),
            Warning::ExpiringInvites(v) => WarningView::ExpiringInvites(expiring_view(v@)),
            Warning::RecentlyAdvertised { links, latest_own } => WarningView::RecentlyAdvertised {
                links: links@,
                latest_own: *latest_own,
            },
        }
    }
}

/// The view of an optional warning.
pub open spec fn warning_opt(w: Option<Warning>) -> Option<WarningView> {
    match w {
        Some(w) => Some(w@),
        None => None,
    }
}

/// Holds of the links whose lookup gave no guild.
pub open spec fn lacks_guild() -> spec_fn(InviteLinkView) -> bool {
    |l: InviteLinkView| l.guild_id is None
}

/// Holds of the links that expire.
pub open spec fn expires() -> spec_fn(InviteLinkView) -> bool {
    |l: InviteLinkView| l.expires_at is Some
}

/// The links, as written, that lead to no guild.
pub open spec fn invalid_links(inv: Seq<InviteLinkView>) -> Seq<Seq<char>> {
    inv.filter(lacks_guild()).map_values(link_of())
}

/// The codes of the links that expire, with their expiry.
pub open spec fn expiring(inv: Seq<InviteLinkView>) -> Seq<(Seq<char>, i64)> {
    inv.filter(expires()).map_values(expiry_of())
}

/// A link as written in the message.
pub open spec fn link_of() -> spec_fn(InviteLinkView) -> Seq<char> {
    |l: InviteLinkView| l.link
}

/// The code of a link.
pub open spec fn code_of() -> spec_fn(InviteLinkView) -> Seq<char> {
    |l: InviteLinkView| l.code
}

/// The code of a link with its expiry.
pub open spec fn expiry_of() -> spec_fn(InviteLinkView) -> (Seq<char>, i64) {
    |l: InviteLinkView| (l.code, l.expires_at->0)
}

/// What the link check says of resolved links: invalid ones first, then expiring ones.
pub open spec fn link_warning(inv: Seq<InviteLinkView>) -> Option<WarningView> {
    if invalid_links(inv).len() > 0 {
        Some(WarningView::InvalidInvites(invalid_links(inv)))
    } else if expiring(inv).len() > 0 {
        Some(WarningView::ExpiringInvites(expiring(inv)))
    } else {
        None
    }
}

/// The length of a message text without its invite links.
pub open spec fn description_len(content: Seq<char>) -> int {
    content.len() - links_total(extract(content))
}

/// A suffix of the links is no longer, together, than all of them.
proof fn lemma_suffix_total(s: Seq<InviteLinkView>, j: int)
    requires
        0 <= j <= s.len(),
    ensures
        0 <= links_total(s.subrange(j, s.len() as int)) <= links_total(s),
    decreases j,
{
    if j == 0 {
        assert(s.subrange(0, s.len() as int) =~= s);
        lemma_total_nonneg(s);
    } else {
        lemma_suffix_total(s, j - 1);
        assert(s.subrange(j - 1, s.len() as int).drop_first() =~= s.subrange(j, s.len() as int));
        lemma_total_nonneg(s.subrange(j, s.len() as int));
    }
}

proof fn lemma_total_nonneg(s: Seq<InviteLinkView>)
    ensures
        links_total(s) >= 0,
    decreases s.len(),
{
    if s.len() > 0 {
        lemma_total_nonneg(s.drop_first());
    }
}

/// Refuses a message without invite links.
pub fn check_has_invite(finder: &InviteFinder) -> (r: Option<Warning>)
    ensures
        warning_opt(r) == if finder@.len() == 0 {
            Some(WarningView::NoInvite)
        } else {
            None
        },
{
    if finder.invite_codes.len() == 0 {
        Some(Warning::NoInvite)
    } else {
        None
    }
}

/// Refuses a message whose text, without its links, is shorter than `required_length`.
pub fn check_invite_message(content: &str, finder: &InviteFinder, required_length: usize) -> (r:
    Option<Warning>)
    requires
        finder@ == extract(content@),
    ensures
        warning_opt(r) == if description_len(content@) < required_length {
            Some(WarningView::ShortDescription(required_length))
        } else {
            None
        },
{
    proof {
        lemma_links_inside(content@);
    }
    let len = content.unicode_len();
    let n = finder.invite_codes.len();
    let mut total: usize = 0;
    let mut i: usize = n;
    while i > 0
        invariant
            n == finder@.len(),
            i <= n,
            total == links_total(finder@.subrange(i as int, n as int)),
            links_total(finder@) <= content@.len(),
            len == content@.len(),
        decreases i,
    {
        i -= 1;
        let l = finder.invite_codes[i].invite_link.unicode_len();
        proof {
            let rest = finder@.subrange(i as int, n as int);
            assert(rest.drop_first() =~= finder@.subrange(i + 1, n as int));
            assert(rest[0] == finder@[i as int]);
            lemma_suffix_total(finder@, i as int);
        }
        total = total + l;
    }
    assert(finder@.subrange(0, n as int) =~= finder@);
    if len - total < required_length {
        Some(Warning::ShortDescription(required_length))
    } else {
        None
    }
}

/// Refuses resolved links that lead to no guild, and then links that expire.
pub fn check_invite_links(invites: &Vec<DiscordInviteLink>) -> (r: Option<Warning>)
    ensures
        warning_opt(r) == link_warning(link_views(invites@)),
{
    let ghost inv = link_views(invites@);
    let mut invalid: Vec<String> = Vec::new();
    let mut expiring_now: Vec<ExpiringInvite> = Vec::new();
    let mut i: usize = 0;
    while i < invites.len()
        invariant
            i <= invites@.len(),
            inv == link_views(invites@),
            strings_view(invalid@) == inv.subrange(0, i as int).filter(lacks_guild()).map_values(
                link_of(),
            ),
            expiring_view(expiring_now@) == inv.subrange(0, i as int).filter(expires()).map_values(
                expiry_of(),
            ),
        decreases invites.len() - i,
    {
        let l = &invites[i];
        proof {
            let s = inv.subrange(0, i as int);
            assert(inv.subrange(0, i + 1) =~= s.push(l@));
            s.lemma_filter_push(l@, lacks_guild());
            s.lemma_filter_push(l@, expires());
            assert(s.filter(lacks_guild()).push(l@).map_values(link_of()) =~= s.filter(
                lacks_guild(),
            ).map_values(link_of()).push(l.invite_link@));
            assert(s.filter(expires()).push(l@).map_values(expiry_of()) =~= s.filter(
                expires(),
            ).map_values(expiry_of()).push((l.invite_code@, l.expires_at->0)));
        }
        if l.guild_id.is_none() {
            invalid.push(l.invite_link.clone());
        }
        match l.expires_at {
            Some(t) => {
                expiring_now.push(ExpiringInvite { invite_code: l.invite_code.clone(), expires_at: t });
            },
            None => {},
        }
        assert(strings_view(invalid@) =~= inv.subrange(0, i + 1).filter(lacks_guild()).map_values(
            link_of(),
        ));
        assert(expiring_view(expiring_now@) =~= inv.subrange(0, i + 1).filter(expires()).map_values(
            expiry_of(),
        ));
        i += 1;
    }
    assert(inv.subrange(0, i as int) =~= inv);
    if invalid.len() > 0 {
        Some(Warning::InvalidInvites(invalid))
    } else if expiring_now.len() > 0 {
        Some(Warning::ExpiringInvites(expiring_now))
    } else {
        None
    }
}

/// What becomes of a record found in the history, once it is known whether
/// its message still exists.
#[derive(Debug, Clone, Copy, PartialEq, Eq, Structural)]
pub enum Fate {
    /// The author reposts within the grace period: the earlier message is removed.
    Supersede,
    /// The record counts against the new message.
    Keep,
    /// The message is gone and the record was live: the history forgets or marks it.
    Purge,
}

/// The fate of a record, for a new message by `author`.
pub open spec fn fate(r: RecordView, exists: bool, author: u64, ban: BanPeriodConfig, now: i64) -> Fate {
    if exists {
        if r.user_id == author && grace_start(ban, now) < r.timestamp {
            Fate::Supersede
        } else {
            Fate::Keep
        }
    } else if r.deleted {
        Fate::Keep
    } else {
        Fate::Purge
    }
}

/// Whether the `i`th fetched message exists; a missing answer counts as gone.
pub open spec fn exists_at(found: Seq<bool>, i: int) -> bool {
    0 <= i < found.len() && found[i]
}

/// The fate of the `i`th candidate.
pub open spec fn fate_at(
    c: Seq<RecordView>,
    found: Seq<bool>,
    author: u64,
    ban: BanPeriodConfig,
    now: i64,
    i: int,
) -> Fate {
    fate(c[i], exists_at(found, i), author, ban, now)
}

/// The candidates among the first `n` that keep counting.
pub open spec fn kept_upto(
    c: Seq<RecordView>,
    found: Seq<bool>,
    author: u64,
    ban: BanPeriodConfig,
    now: i64,
    n: int,
) -> Seq<RecordView>
    decreases n,
{
    if n <= 0 {
        Seq::empty()
    } else {
        let prev = kept_upto(c, found, author, ban, now, n - 1);
        if fate_at(c, found, author, ban, now, n - 1) == Fate::Keep {
            prev.push(c[n - 1])
        } else {
            prev
        }
    }
}

/// The messages among the first `n` candidates that the new message supersedes.
pub open spec fn superseded_upto(
    c: Seq<RecordView>,
    found: Seq<bool>,
    author: u64,
    ban: BanPeriodConfig,
    now: i64,
    n: int,
) -> Seq<MessageRef>
    decreases n,
{
    if n <= 0 {
        Seq::empty()
    } else {
        let prev = superseded_upto(c, found, author, ban, now, n - 1);
        if fate_at(c, found, author, ban, now, n - 1) == Fate::Supersede {
            prev.push(ref_of(c[n - 1]))
        } else {
            prev
        }
    }
}

/// The history after the gone messages among the first `n` candidates are deleted from it.
pub open spec fn purged_upto(
    log: Seq<RecordView>,
    c: Seq<RecordView>,
    found: Seq<bool>,
    author: u64,
    ban: BanPeriodConfig,
    now: i64,
    n: int,
) -> Seq<RecordView>
    decreases n,
{
    if n <= 0 {
        log
    } else {
        let prev = purged_upto(log, c, found, author, ban, now, n - 1);
        if fate_at(c, found, author, ban, now, n - 1) == Fate::Purge {
            after_delete(prev, c[n - 1].message_id, ban, now)
        } else {
            prev
        }
    }
}

/// Holds of the records whose message still exists.
pub open spec fn live() -> spec_fn(RecordView) -> bool {
    |r: RecordView| !r.deleted
}

/// The message of a record.
pub open spec fn ref_fn() -> spec_fn(RecordView) -> MessageRef {
    |r: RecordView| ref_of(r)
}

/// The latest moment among the records marked deleted.
pub open spec fn latest_deleted(s: Seq<RecordView>) -> Option<i64>
    decreases s.len(),
{
    if s.len() == 0 {
        None
    } else {
        let prev = latest_deleted(s.drop_last());
        let x = s.last();
        if !x.deleted {
            prev
        } else {
            match prev {
                Some(t) if t >= x.timestamp => Some(t),
                _ => Some(x.timestamp),
            }
        }
    }
}

/// The warning for records that still count: the messages that still exist,
/// or, where there are none, when the server was last advertised.
pub open spec fn history_warning(kept: Seq<RecordView>) -> WarningView {
    let links = kept.filter(live()).map_values(ref_fn());
    WarningView::RecentlyAdvertised {
        links,
        latest_own: if links.len() == 0 {
            latest_deleted(kept)
        } else {
            None
        },
    }
}

/// Builds the warning for records that still count.
pub fn history_warning_of(kept: &Vec<HistoryRecord>) -> (r: Warning)
    ensures
        r@ == history_warning(record_views(kept@)),
{
    let ghost s = record_views(kept@);
    let mut links: Vec<MessageRef> = Vec::new();
    let mut latest: Option<i64> = None;
    let mut i: usize = 0;
    while i < kept.len()
        invariant
            i <= kept@.len(),
            s == record_views(kept@),
            links@ == s.subrange(0, i as int).filter(live()).map_values(ref_fn()),
            latest == latest_deleted(s.subrange(0, i as int)),
        decreases kept.len() - i,
    {
        let r = &kept[i];
        proof {
            let p = s.subrange(0, i as int);
            assert(s.subrange(0, i + 1) =~= p.push(r@));
            assert(s.subrange(0, i + 1).drop_last() =~= p);
            p.lemma_filter_push(r@, live());
            assert(p.filter(live()).push(r@).map_values(ref_fn()) =~= p.filter(live()).map_values(
                ref_fn(),
            ).push(ref_of(r@)));
        }
        if !r.deleted {
            links.push(MessageRef { channel_id: r.channel_id, message_id: r.message_id });
        } else {
            latest = match latest {
                Some(t) if t >= r.timestamp => Some(t),
                _ => Some(r.timestamp),
            };
        }
        assert(links@ =~= s.subrange(0, i + 1).filter(live()).map_values(ref_fn()));
        i += 1;
    }
    assert(s.subrange(0, i as int) =~= s);
    let latest_own = if links.len() == 0 {
        latest
    } else {
        None
    };
    Warning::RecentlyAdvertised { links, latest_own }
}

/// Decides the fate of each candidate from whether its message still exists
/// (`found`, by position): purges the gone ones from the history, and returns
/// the records that keep counting and the messages to remove as superseded.
pub fn settle(
    log: &mut HistoryLog,
    candidates: &Vec<HistoryRecord>,
    found: &Vec<bool>,
    author: u64,
    now: i64,
) -> (r: (Vec<HistoryRecord>, Vec<MessageRef>))
    ensures
        final(log).ban() == old(log).ban(),
        old(log).wf() ==> final(log).wf(),
        record_views(r.0@) == kept_upto(
            record_views(candidates@),
            found@,
            author,
            old(log).ban(),
            now,
            candidates@.len() as int,
        ),
        r.1@ == superseded_upto(
            record_views(candidates@),
            found@,
            author,
            old(log).ban(),
            now,
            candidates@.len() as int,
        ),
        final(log)@ == purged_upto(
            old(log)@,
            record_views(candidates@),
            found@,
            author,
            old(log).ban(),
            now,
            candidates@.len() as int,
        ),
{
    let ghost c = record_views(candidates@);
    let ghost ban = log.ban();
    let grace = cutoff_minutes(now, log.ban_period().min_per_user_start);
    let mut kept: Vec<HistoryRecord> = Vec::new();
    let mut remove: Vec<MessageRef> = Vec::new();
    let mut i: usize = 0;
    while i < candidates.len()
        invariant
            i <= candidates@.len(),
            c == record_views(candidates@),
            ban == log.ban(),
            ban == old(log).ban(),
            old(log).wf() ==> log.wf(),
            grace == grace_start(ban, now),
            record_views(kept@) == kept_upto(c, found@, author, ban, now, i as int),
            remove@ == superseded_upto(c, found@, author, ban, now, i as int),
            log@ == purged_upto(old(log)@, c, found@, author, ban, now, i as int),
        decreases candidates.len() - i,
    {
        let r = &candidates[i];
        let exists = i < found.len() && found[i];
        if exists {
            if r.user_id == author && grace < r.timestamp as i128 {
                remove.push(MessageRef { channel_id: r.channel_id, message_id: r.message_id });
            } else {
                kept.push(r.copied());
                assert(record_views(kept@) =~= kept_upto(c, found@, author, ban, now, i + 1));
            }
        } else if r.deleted {
            kept.push(r.copied());
            assert(record_views(kept@) =~= kept_upto(c, found@, author, ban, now, i + 1));
        } else {
            log.delete(r.message_id, now);
        }
        i += 1;
    }
    (kept, remove)
}

/// The records that the history holds against a new message, key by key.
pub open spec fn candidates(
    log: Seq<RecordView>,
    m: MessageView,
    keys: Seq<FindKeyView>,
    ban: BanPeriodConfig,
    now: i64,
) -> Seq<RecordView>
    decreases keys.len(),
{
    if keys.len() == 0 {
        Seq::empty()
    } else {
        candidates(log, m, keys.drop_last(), ban, now) + log.filter(
            blocking(m.id, m.channel_id, m.author_id, keys.last(), ban, now),
        )
    }
}

/// The views of a sequence of keys.
pub open spec fn key_views(keys: Seq<HistoryFindKey>) -> Seq<FindKeyView> {
    keys.map_values(|k: HistoryFindKey| k@)
}

/// Holds of the links that lead to a guild.
pub open spec fn has_guild() -> spec_fn(InviteLinkView) -> bool {
    |l: InviteLinkView| l.guild_id is Some
}

/// The history key of a link's code.
pub open spec fn code_key() -> spec_fn(InviteLinkView) -> FindKeyView {
    |l: InviteLinkView| FindKeyView::InviteCode(l.code)
}

/// The history key of a link's guild.
pub open spec fn guild_key() -> spec_fn(InviteLinkView) -> FindKeyView {
    |l: InviteLinkView| FindKeyView::InviteGuildId(l.guild_id->0)
}

/// One key per link, by code.
pub open spec fn code_keys(inv: Seq<InviteLinkView>) -> Seq<FindKeyView> {
    inv.map_values(code_key())
}

/// One key per link that leads to a guild, by guild.
pub open spec fn guild_keys(inv: Seq<InviteLinkView>) -> Seq<FindKeyView> {
    inv.filter(has_guild()).map_values(guild_key())
}

/// The record that a passing message leaves for one of its links.
pub open spec fn record_for(m: MessageView, l: InviteLinkView) -> RecordView {
    RecordView {
        invite_code: l.code,
        invite_guild_id: l.guild_id->0,
        guild_id: m.guild_id,
        channel_id: m.channel_id,
        message_id: m.id,
        user_id: m.author_id,
        timestamp: m.timestamp,
        deleted: false,
    }
}

/// Makes the record of a passing message for a link.
pub open spec fn record_maker(m: MessageView) -> spec_fn(InviteLinkView) -> RecordView {
    |l: InviteLinkView| record_for(m, l)
}

/// The records that a passing message leaves: one per link that leads to a guild.
pub open spec fn new_records(m: MessageView, inv: Seq<InviteLinkView>) -> Seq<RecordView> {
    inv.filter(has_guild()).map_values(record_maker(m))
}

/// The history after each record of `rs` is put in, in turn.
pub open spec fn upsert_all(s: Seq<RecordView>, rs: Seq<RecordView>) -> Seq<RecordView>
    decreases rs.len(),
{
    if rs.len() == 0 {
        s
    } else {
        upserted(upsert_all(s, rs.drop_last()), rs.last())
    }
}

/// The history after a message passes: what it held for the message before
/// is deleted, then one record per link that leads to a guild is put in.
pub open spec fn committed(
    log: Seq<RecordView>,
    m: MessageView,
    inv: Seq<InviteLinkView>,
    ban: BanPeriodConfig,
    now: i64,
) -> Seq<RecordView> {
    upsert_all(after_delete(log, m.id, ban, now), new_records(m, inv))
}

/// Looks each key up in the history, for a new message.
pub fn gather(log: &HistoryLog, message: &CheckedMessage, keys: &Vec<HistoryFindKey>, now: i64) -> (r:
    Vec<HistoryRecord>)
    ensures
        record_views(r@) == candidates(log@, message@, key_views(keys@), log.ban(), now),
{
    let mut all: Vec<HistoryRecord> = Vec::new();
    let mut i: usize = 0;
    while i < keys.len()
        invariant
            i <= keys@.len(),
            record_views(all@) == candidates(
                log@,
                message@,
                key_views(keys@).subrange(0, i as int),
                log.ban(),
                now,
            ),
        decreases keys.len() - i,
    {
        let mut found = log.validate(message.id, message.channel_id, message.author_id, &keys[i], now);
        proof {
            let ks = key_views(keys@).subrange(0, i + 1);
            assert(ks.drop_last() =~= key_views(keys@).subrange(0, i as int));
            assert(record_views(all@ + found@) =~= record_views(all@) + record_views(found@));
        }
        all.append(&mut found);
        i += 1;
    }
    assert(key_views(keys@).subrange(0, i as int) =~= key_views(keys@));
    all
}

/// The history keys of the links' codes.
pub fn code_keys_of(links: &Vec<DiscordInviteLink>) -> (r: Vec<HistoryFindKey>)
    ensures
        key_views(r@) == code_keys(link_views(links@)),
{
    let mut keys: Vec<HistoryFindKey> = Vec::new();
    let mut i: usize = 0;
    while i < links.len()
        invariant
            i <= links@.len(),
            key_views(keys@) == code_keys(link_views(links@).subrange(0, i as int)),
        decreases links.len() - i,
    {
        let code = links[i].invite_code.clone();
        proof {
            let p = link_views(links@).subrange(0, i as int);
            assert(link_views(links@).subrange(0, i + 1) =~= p.push(links@[i as int]@));
            assert(code_keys(p.push(links@[i as int]@)) =~= code_keys(p).push(
                FindKeyView::InviteCode(code@),
            ));
        }
        keys.push(HistoryFindKey::InviteCode(code));
        assert(key_views(keys@) =~= code_keys(link_views(links@).subrange(0, i + 1)));
        i += 1;
    }
    assert(link_views(links@).subrange(0, i as int) =~= link_views(links@));
    keys
}

/// The history keys of the guilds the links lead to.
pub fn guild_keys_of(links: &Vec<DiscordInviteLink>) -> (r: Vec<HistoryFindKey>)
    ensures
        key_views(r@) == guild_keys(link_views(links@)),
{
    let ghost inv = link_views(links@);
    let mut keys: Vec<HistoryFindKey> = Vec::new();
    let mut i: usize = 0;
    while i < links.len()
        invariant
            i <= links@.len(),
            inv == link_views(links@),
            key_views(keys@) == guild_keys(inv.subrange(0, i as int)),
        decreases links.len() - i,
    {
        let l = &links[i];
        proof {
            let p = inv.subrange(0, i as int);
            assert(inv.subrange(0, i + 1) =~= p.push(l@));
            p.lemma_filter_push(l@, has_guild());
            assert(p.filter(has_guild()).push(l@).map_values(guild_key()) =~= p.filter(
                has_guild(),
            ).map_values(guild_key()).push(guild_key()(l@)));
        }
        match l.guild_id {
            Some(g) => {
                keys.push(HistoryFindKey::InviteGuildId(g));
            },
            None => {},
        }
        assert(key_views(keys@) =~= guild_keys(inv.subrange(0, i + 1)));
        i += 1;
    }
    assert(inv.subrange(0, i as int) =~= inv);
    keys
}

/// Records a message that passed every check: what the history held for it is
/// deleted, then one record per link that leads to a guild is put in.
pub fn commit(log: &mut HistoryLog, message: &CheckedMessage, invites: &Vec<DiscordInviteLink>, now: i64)
    ensures
        final(log).ban() == old(log).ban(),
        old(log).wf() ==> final(log).wf(),
        final(log)@ == committed(old(log)@, message@, link_views(invites@), old(log).ban(), now),
{
    log.delete(message.id, now);
    let ghost base = log@;
    let ghost inv = link_views(invites@);
    let ghost m = message@;
    let mut i: usize = 0;
    while i < invites.len()
        invariant
            i <= invites@.len(),
            inv == link_views(invites@),
            m == message@,
            log.ban() == old(log).ban(),
            old(log).wf() ==> log.wf(),
            base == after_delete(old(log)@, message.id, old(log).ban(), now),
            log@ == upsert_all(base, new_records(m, inv.subrange(0, i as int))),
        decreases invites.len() - i,
    {
        let l = &invites[i];
        proof {
            let p = inv.subrange(0, i as int);
            assert(inv.subrange(0, i + 1) =~= p.push(l@));
            p.lemma_filter_push(l@, has_guild());
            assert(p.filter(has_guild()).push(l@).map_values(record_maker(m)) =~= p.filter(
                has_guild(),
            ).map_values(record_maker(m)).push(record_for(m, l@)));
            if l.guild_id is Some {
                assert(new_records(m, p.push(l@)) =~= new_records(m, p).push(record_for(m, l@)));
                assert(new_records(m, p).push(record_for(m, l@)).drop_last() =~= new_records(m, p));
            } else {
                assert(new_records(m, p.push(l@)) =~= new_records(m, p));
            }
        }
        match l.guild_id {
            Some(g) => {
                log.insert(
                    HistoryRecord {
                        invite_code: l.invite_code.clone(),
                        invite_guild_id: g,
                        guild_id: message.guild_id,
                        channel_id: message.channel_id,
                        message_id: message.id,
                        user_id: message.author_id,
                        timestamp: message.timestamp,
                        deleted: false,
                    },
                );
            },
            None => {},
        }
        i += 1;
    }
    assert(inv.subrange(0, i as int) =~= inv);
}

/// What the caller does next for a message under check.
#[derive(Debug)]
pub enum Action {
    /// Look these invite codes up, and answer with `Event::LookedUp`, by position.
    Lookup(Vec<String>),
    /// Remove the messages of `remove`, then tell for each message of `fetch`
    /// whether it still exists, with `Event::Fetched`, by position.
    Fetch { remove: Vec<MessageRef>, fetch: Vec<MessageRef> },
    /// Remove the messages of `remove`, then reply with the warning; the check is over.
    Warn { remove: Vec<MessageRef>, warning: Warning },
    /// Remove the messages of `remove`; the message passed and is recorded.
    Pass { remove: Vec<MessageRef> },
    /// The event did not fit the check's stage; the check is over, nothing recorded.
    Abandon,
}

/// An action as the contracts see it.
pub enum ActionView {
    Lookup(Seq<Seq<char>>),
    Fetch { remove: Seq<MessageRef>, fetch: Seq<MessageRef> },
    Warn { remove: Seq<MessageRef>, warning: WarningView },
    Pass { remove: Seq<MessageRef> },
    Abandon,
}

impl View for Action {
    type V = ActionView;

    open spec fn view(&self) -> ActionView {
        match self {
            Action::Lookup(codes) => ActionView::Lookup(strings_view(codes@)),
            Action::Fetch { remove, fetch } => ActionView::Fetch { remove: remove@, fetch: fetch@ },
            Action::Warn { remove, warning } => ActionView::Warn { remove: remove@, warning: warning@ },
            Action::Pass { remove } => ActionView::Pass { remove: remove@ },
            Action::Abandon => ActionView::Abandon,
        }
    }
}

/// What the caller hands back after doing an action.
#[derive(Debug)]
pub enum Event {
    /// The lookup answers, one per code asked for (`None`: the lookup failed).
    LookedUp(Vec<Option<DiscordInvite>>),
    /// Whether each message asked for still exists.
    Fetched(Vec<bool>),
}

/// Where a check stands.
#[derive(Debug, Clone, Copy, PartialEq, Eq, Structural)]
pub enum Stage {
    AwaitLookup,
    AwaitCodeFetch,
    AwaitGuildFetch,
    Done,
}

/// A check as the contracts see it.
pub struct PipelineView {
    pub message: MessageView,
    pub required_length: usize,
    pub now: i64,
    /// The links found in the message.
    pub links: Seq<InviteLinkView>,
    /// The links with their lookup answers.
    pub invites: Seq<InviteLinkView>,
    /// The history records whose messages are being fetched.
    pub candidates: Seq<RecordView>,
    pub stage: Stage,
}

/// The links of a check are those of its message.
pub open spec fn pipeline_ok(pv: PipelineView) -> bool {
    pv.links == extract(pv.message.content)
}

/// The check, over.
pub open spec fn done(pv: PipelineView) -> PipelineView {
    PipelineView { stage: Stage::Done, ..pv }
}

/// The messages of records.
pub open spec fn refs(c: Seq<RecordView>) -> Seq<MessageRef> {
    c.map_values(ref_fn())
}

/// A check as it starts.
pub open spec fn initial(m: MessageView, required_length: usize, now: i64) -> PipelineView {
    PipelineView {
        message: m,
        required_length,
        now,
        links: extract(m.content),
        invites: Seq::empty(),
        candidates: Seq::empty(),
        stage: if extract(m.content).len() == 0 {
            Stage::Done
        } else {
            Stage::AwaitLookup
        },
    }
}

/// The first action of a check: a warning where the message holds no invite
/// link, else the lookup of every code.
pub open spec fn first_action(m: MessageView) -> ActionView {
    if extract(m.content).len() == 0 {
        ActionView::Warn { remove: Seq::empty(), warning: WarningView::NoInvite }
    } else {
        ActionView::Lookup(extract(m.content).map_values(code_of()))
    }
}

/// The check from the link check on: links that lead nowhere or expire are
/// refused, else the history is looked up by guild; with nothing found there
/// the message passes and is recorded.
pub open spec fn guild_phase(
    pv: PipelineView,
    log: Seq<RecordView>,
    ban: BanPeriodConfig,
    remove: Seq<MessageRef>,
) -> (PipelineView, Seq<RecordView>, ActionView) {
    match link_warning(pv.invites) {
        Some(w) => (done(pv), log, ActionView::Warn { remove, warning: w }),
        None => {
            let c = candidates(log, pv.message, guild_keys(pv.invites), ban, pv.now);
            if c.len() == 0 {
                (
                    done(pv),
                    committed(log, pv.message, pv.invites, ban, pv.now),
                    ActionView::Pass { remove },
                )
            } else {
                (
                    PipelineView { candidates: c, stage: Stage::AwaitGuildFetch, ..pv },
                    log,
                    ActionView::Fetch { remove, fetch: refs(c) },
                )
            }
        },
    }
}

/// The check once the lookups are answered: links that lead to no guild are
/// refused, then a short description; else the history is looked up by code.
pub open spec fn after_lookup(
    pv: PipelineView,
    log: Seq<RecordView>,
    ban: BanPeriodConfig,
    answers: Seq<Option<DiscordInvite>>,
) -> (PipelineView, Seq<RecordView>, ActionView) {
    let inv = resolve_all(pv.links, answers);
    let pv1 = PipelineView { invites: inv, ..pv };
    if invalid_links(inv).len() > 0 {
        (
            done(pv1),
            log,
            ActionView::Warn {
                remove: Seq::empty(),
                warning: WarningView::InvalidInvites(invalid_links(inv)),
            },
        )
    } else if description_len(pv.message.content) < pv.required_length {
        (
            done(pv1),
            log,
            ActionView::Warn {
                remove: Seq::empty(),
                warning: WarningView::ShortDescription(pv.required_length),
            },
        )
    } else {
        let c = candidates(log, pv.message, code_keys(inv), ban, pv.now);
        if c.len() == 0 {
            guild_phase(pv1, log, ban, Seq::empty())
        } else {
            (
                PipelineView { candidates: c, stage: Stage::AwaitCodeFetch, ..pv1 },
                log,
                ActionView::Fetch { remove: Seq::empty(), fetch: refs(c) },
            )
        }
    }
}

/// The check once it is known which earlier messages still exist: records
/// that keep counting refuse the message; else the code phase goes on to the
/// link check, and the guild phase lets the message pass.
pub open spec fn after_fetch(
    pv: PipelineView,
    log: Seq<RecordView>,
    ban: BanPeriodConfig,
    found: Seq<bool>,
) -> (PipelineView, Seq<RecordView>, ActionView) {
    let a = pv.message.author_id;
    let n = pv.candidates.len() as int;
    let kept = kept_upto(pv.candidates, found, a, ban, pv.now, n);
    let remove = superseded_upto(pv.candidates, found, a, ban, pv.now, n);
    let log1 = purged_upto(log, pv.candidates, found, a, ban, pv.now, n);
    if kept.len() > 0 {
        (done(pv), log1, ActionView::Warn { remove, warning: history_warning(kept) })
    } else if pv.stage == Stage::AwaitCodeFetch {
        guild_phase(pv, log1, ban, remove)
    } else {
        (done(pv), committed(log1, pv.message, pv.invites, ban, pv.now), ActionView::Pass { remove })
    }
}

/// One step of a check: its next state, the history after it, and the action.
pub open spec fn next(pv: PipelineView, log: Seq<RecordView>, ban: BanPeriodConfig, event: Event) -> (
    PipelineView,
    Seq<RecordView>,
    ActionView,
) {
    match event {
        Event::LookedUp(answers) => if pv.stage == Stage::AwaitLookup {
            after_lookup(pv, log, ban, answers@)
        } else {
            (done(pv), log, ActionView::Abandon)
        },
        Event::Fetched(found) => if pv.stage == Stage::AwaitCodeFetch || pv.stage
            == Stage::AwaitGuildFetch {
            after_fetch(pv, log, ban, found@)
        } else {
            (done(pv), log, ActionView::Abandon)
        },
    }
}

/// A message without invite links is refused at once, whatever it says
/// otherwise, and its check is over.
pub proof fn lemma_no_invite_refused(m: MessageView, required_length: usize, now: i64)
    requires
        extract(m.content).len() == 0,
    ensures
        first_action(m) == (ActionView::Warn { remove: Seq::empty(), warning: WarningView::NoInvite }),
        initial(m, required_length, now).stage == Stage::Done,
{
}

/// A message whose description is long enough, whose links all resolve to a
/// guild and never expire, and that the history knows nothing against (by
/// code or by guild) passes as soon as the lookups are answered; the history
/// then gets exactly one live record per link.
pub proof fn lemma_novel_permanent_passes(
    pv: PipelineView,
    log: Seq<RecordView>,
    ban: BanPeriodConfig,
    answers: Vec<Option<DiscordInvite>>,
)
    requires
        pipeline_ok(pv),
        pv.stage == Stage::AwaitLookup,
        description_len(pv.message.content) >= pv.required_length,
        forall|i: int|
            0 <= i < pv.links.len() ==> (#[trigger] resolve_all(pv.links, answers@)[i]).guild_id is Some
                && resolve_all(pv.links, answers@)[i].expires_at is None,
        candidates(log, pv.message, code_keys(resolve_all(pv.links, answers@)), ban, pv.now).len()
            == 0,
        candidates(log, pv.message, guild_keys(resolve_all(pv.links, answers@)), ban, pv.now).len()
            == 0,
    ensures
        ({
            let inv = resolve_all(pv.links, answers@);
            let (_, log1, action) = next(pv, log, ban, Event::LookedUp(answers));
            &&& action == ActionView::Pass { remove: Seq::empty() }
            &&& log1 == committed(log, pv.message, inv, ban, pv.now)
            &&& new_records(pv.message, inv).len() == pv.links.len()
            &&& forall|i: int|
                0 <= i < pv.links.len() ==> #[trigger] new_records(pv.message, inv)[i] == record_for(
                    pv.message,
                    inv[i],
                ) && !new_records(pv.message, inv)[i].deleted
        }),
{
    let inv = resolve_all(pv.links, answers@);
    lemma_filter_keeps_none(inv, lacks_guild());
    lemma_filter_keeps_none(inv, expires());
    lemma_filter_keeps_all(inv, has_guild());
}

/// Superseding, step by step: where every candidate is the author's own
/// message, younger than the grace period and still there, none keeps
/// counting, all are to be removed, and the history is left as it is.
proof fn lemma_all_superseded(
    log: Seq<RecordView>,
    c: Seq<RecordView>,
    found: Seq<bool>,
    author: u64,
    ban: BanPeriodConfig,
    now: i64,
    n: int,
)
    requires
        0 <= n <= c.len(),
        forall|i: int|
            0 <= i < c.len() ==> (#[trigger] c[i]).user_id == author && grace_start(ban, now)
                < c[i].timestamp && exists_at(found, i),
    ensures
        kept_upto(c, found, author, ban, now, n).len() == 0,
        superseded_upto(c, found, author, ban, now, n) == refs(c.subrange(0, n)),
        purged_upto(log, c, found, author, ban, now, n) == log,
    decreases n,
{
    if n > 0 {
        lemma_all_superseded(log, c, found, author, ban, now, n - 1);
        assert(c.subrange(0, n) =~= c.subrange(0, n - 1).push(c[n - 1]));
        assert(refs(c.subrange(0, n - 1).push(c[n - 1])) =~= refs(c.subrange(0, n - 1)).push(
            ref_of(c[n - 1]),
        ));
    } else {
        assert(refs(c.subrange(0, 0)) =~= Seq::<MessageRef>::empty());
    }
}

/// An author who reposts an invite code within the grace period of their own
/// earlier posts, which still exist, is not held back by the history by code:
/// the earlier messages are removed and the check goes on to the link check.
pub proof fn lemma_own_repost_superseded(
    pv: PipelineView,
    log: Seq<RecordView>,
    ban: BanPeriodConfig,
    found: Vec<bool>,
)
    requires
        pv.stage == Stage::AwaitCodeFetch,
        forall|i: int|
            0 <= i < pv.candidates.len() ==> (#[trigger] pv.candidates[i]).user_id
                == pv.message.author_id && grace_start(ban, pv.now) < pv.candidates[i].timestamp
                && exists_at(found@, i),
    ensures
        next(pv, log, ban, Event::Fetched(found)) == guild_phase(pv, log, ban, refs(pv.candidates)),
        ({
            let action = next(pv, log, ban, Event::Fetched(found)).2;
            &&& match action {
                ActionView::Fetch { remove, .. } => remove == refs(pv.candidates),
                ActionView::Warn { remove, warning } => remove == refs(pv.candidates)
                    && !(warning is RecentlyAdvertised),
                ActionView::Pass { remove } => remove == refs(pv.candidates),
                _ => false,
            }
        }),
{
    let c = pv.candidates;
    lemma_all_superseded(log, c, found@, pv.message.author_id, ban, pv.now, c.len() as int);
    assert(c.subrange(0, c.len() as int) =~= c);
}

/// Once the lookups are answered and every link leads to a guild, a
/// description shorter than required is refused before the history is
/// consulted, and the history stays as it was.
pub proof fn lemma_short_description_refused(
    pv: PipelineView,
    log: Seq<RecordView>,
    ban: BanPeriodConfig,
    answers: Vec<Option<DiscordInvite>>,
)
    requires
        pv.stage == Stage::AwaitLookup,
        invalid_links(resolve_all(pv.links, answers@)).len() == 0,
        description_len(pv.message.content) < pv.required_length,
    ensures
        next(pv, log, ban, Event::LookedUp(answers)).1 == log,
        next(pv, log, ban, Event::LookedUp(answers)).2 == (ActionView::Warn {
            remove: Seq::empty(),
            warning: WarningView::ShortDescription(pv.required_length),
        }),
{
}

/// A message that the history knows nothing of, with one link that leads to a
/// guild, leaves the history as it was plus exactly one live record.
pub proof fn lemma_first_record_of_message(
    log: Seq<RecordView>,
    m: MessageView,
    inv: Seq<InviteLinkView>,
    ban: BanPeriodConfig,
    now: i64,
)
    requires
        forall|i: int| 0 <= i < log.len() ==> (#[trigger] log[i]).message_id != m.id,
        inv.len() == 1,
        inv[0].guild_id is Some,
    ensures
        committed(log, m, inv, ban, now) == log.push(record_for(m, inv[0])),
        !record_for(m, inv[0]).deleted,
{
    lemma_filter_keeps_all(log, survives(m.id, ban, now));
    assert(after_delete(log, m.id, ban, now) =~= log);
    lemma_filter_keeps_all(inv, has_guild());
    let rec = record_for(m, inv[0]);
    assert(new_records(m, inv) =~= seq![rec]);
    assert(seq![rec].drop_last() =~= Seq::<RecordView>::empty());
    assert(seq![rec].last() == rec);
    assert(upsert_all(log, Seq::<RecordView>::empty()) == log);
    assert(upsert_all(log, seq![rec]) == upserted(log, rec));
    lemma_filter_keeps_all(log, other_key(rec));
}

/// A candidate whose fate is to keep counting is among the kept records.
proof fn lemma_kept_contains(
    c: Seq<RecordView>,
    found: Seq<bool>,
    author: u64,
    ban: BanPeriodConfig,
    now: i64,
    i: int,
    n: int,
)
    requires
        0 <= i < n <= c.len(),
        fate_at(c, found, author, ban, now, i) == Fate::Keep,
    ensures
        kept_upto(c, found, author, ban, now, n).contains(c[i]),
    decreases n,
{
    if n - 1 == i {
        let k = kept_upto(c, found, author, ban, now, n);
        assert(k[k.len() - 1] == c[i]);
    } else {
        lemma_kept_contains(c, found, author, ban, now, i, n - 1);
        let prev = kept_upto(c, found, author, ban, now, n - 1);
        let j = choose|j: int| 0 <= j < prev.len() && prev[j] == c[i];
        let k = kept_upto(c, found, author, ban, now, n);
        assert(k[j] == c[i]);
    }
}

/// A record found in the history that still counts (its message exists and it
/// is another user's, or the author's own past the grace period; or its
/// message is gone and it was already marked) refuses the message with a
/// recent-advertisement warning; where its message still exists, the warning
/// links it.
pub proof fn lemma_counting_record_warns(
    pv: PipelineView,
    log: Seq<RecordView>,
    ban: BanPeriodConfig,
    found: Vec<bool>,
    i: int,
)
    requires
        pv.stage == Stage::AwaitCodeFetch || pv.stage == Stage::AwaitGuildFetch,
        0 <= i < pv.candidates.len(),
        fate_at(pv.candidates, found@, pv.message.author_id, ban, pv.now, i) == Fate::Keep,
    ensures
        ({
            let action = next(pv, log, ban, Event::Fetched(found)).2;
            &&& action is Warn
            &&& action->warning matches WarningView::RecentlyAdvertised { links, .. }
            &&& !pv.candidates[i].deleted ==> links.contains(ref_of(pv.candidates[i]))
        }),
{
    let c = pv.candidates;
    let a = pv.message.author_id;
    let kept = kept_upto(c, found@, a, ban, pv.now, c.len() as int);
    lemma_kept_contains(c, found@, a, ban, pv.now, i, c.len() as int);
    if !c[i].deleted {
        let j = choose|j: int| 0 <= j < kept.len() && kept[j] == c[i];
        kept.lemma_filter_contains(live(), j);
        let f = kept.filter(live());
        let k = choose|k: int| 0 <= k < f.len() && f[k] == c[i];
        let links = f.map_values(ref_fn());
        assert(links[k] == ref_of(c[i]));
    }
}

/// A record marked deleted is not linked by a warning, unless a live record
/// of the same message is linked.
pub proof fn lemma_deleted_not_linked(kept: Seq<RecordView>, x: RecordView)
    requires
        forall|i: int|
            0 <= i < kept.len() && !(#[trigger] kept[i]).deleted ==> ref_of(kept[i]) != ref_of(x),
    ensures
        history_warning(kept) matches WarningView::RecentlyAdvertised { links, .. } && !links.contains(
            ref_of(x),
        ),
{
    let f = kept.filter(live());
    let links = f.map_values(ref_fn());
    if links.contains(ref_of(x)) {
        let j = choose|j: int| 0 <= j < links.len() && links[j] == ref_of(x);
        kept.lemma_filter_pred(live(), j);
        assert(f.contains(f[j]));
        kept.lemma_filter_contains_rev(live(), f[j]);
    }
}

/// The messages of the records.
fn refs_of(c: &Vec<HistoryRecord>) -> (r: Vec<MessageRef>)
    ensures
        r@ == refs(record_views(c@)),
{
    let mut r: Vec<MessageRef> = Vec::new();
    let mut i: usize = 0;
    while i < c.len()
        invariant
            i <= c@.len(),
            r@ == refs(record_views(c@).subrange(0, i as int)),
        decreases c.len() - i,
    {
        r.push(MessageRef { channel_id: c[i].channel_id, message_id: c[i].message_id });
        assert(r@ =~= refs(record_views(c@).subrange(0, i + 1)));
        i += 1;
    }
    assert(record_views(c@).subrange(0, i as int) =~= record_views(c@));
    r
}

/// The checks that one message goes through, in order: it holds an invite
/// link; the links resolve to guilds; the description is long enough; no
/// recent advertisement by code; the links are permanent; no recent
/// advertisement by guild. The caller does the lookups and message fetches
/// that the actions ask for.
pub struct Pipeline {
    message: CheckedMessage,
    required_length: usize,
    now: i64,
    finder: InviteFinder,
    invites: Vec<DiscordInviteLink>,
    candidates: Vec<HistoryRecord>,
    stage: Stage,
}

impl View for Pipeline {
    type V = PipelineView;

    closed spec fn view(&self) -> PipelineView {
        PipelineView {
            message: self.message@,
            required_length: self.required_length,
            now: self.now,
            links: self.finder@,
            invites: link_views(self.invites@),
            candidates: record_views(self.candidates@),
            stage: self.stage,
        }
    }
}

impl Pipeline {
    pub open spec fn wf(&self) -> bool {
        pipeline_ok(self@)
    }

    /// Starts the check of `message` at time `now` (unix seconds).
    pub fn start(message: CheckedMessage, required_length: usize, now: i64) -> (r: (Pipeline, Action))
        ensures
            r.0.wf(),
            r.0@ == initial(message@, required_length, now),
            r.1@ == first_action(message@),
    {
        let finder = InviteFinder::new(message.content.as_str());
        let ghost links = finder@;
        let mut codes: Vec<String> = Vec::new();
        let mut i: usize = 0;
        while i < finder.invite_codes.len()
            invariant
                i <= links.len(),
                links == finder@,
                strings_view(codes@) == links.subrange(0, i as int).map_values(code_of()),
            decreases finder.invite_codes.len() - i,
        {
            let code = finder.invite_codes[i].invite_code.clone();
            proof {
                let p = links.subrange(0, i as int);
                assert(links.subrange(0, i + 1) =~= p.push(links[i as int]));
                assert(p.push(links[i as int]).map_values(code_of()) =~= p.map_values(code_of()).push(
                    code@,
                ));
            }
            codes.push(code);
            assert(strings_view(codes@) =~= links.subrange(0, i + 1).map_values(code_of()));
            i += 1;
        }
        assert(links.subrange(0, i as int) =~= links);
        let empty = codes.len() == 0;
        let p = Pipeline {
            message,
            required_length,
            now,
            finder,
            invites: Vec::new(),
            candidates: Vec::new(),
            stage: if empty {
                Stage::Done
            } else {
                Stage::AwaitLookup
            },
        };
        assert(link_views(p.invites@) =~= Seq::<InviteLinkView>::empty());
        assert(record_views(p.candidates@) =~= Seq::<RecordView>::empty());
        assert(p@ == initial(message@, required_length, now));
        if empty {
            (p, Action::Warn { remove: Vec::new(), warning: Warning::NoInvite })
        } else {
            (p, Action::Lookup(codes))
        }
    }

    /// The check is over.
    pub fn is_done(&self) -> (r: bool)
        ensures
            r == (self@.stage == Stage::Done),
    {
        self.stage == Stage::Done
    }

    fn run_guild_phase(&mut self, log: &mut HistoryLog, remove: Vec<MessageRef>) -> (r: Action)
        requires
            old(self).wf(),
        ensures
            final(self).wf(),
            final(log).ban() == old(log).ban(),
            old(log).wf() ==> final(log).wf(),
            (final(self)@, final(log)@, r@) == guild_phase(old(self)@, old(log)@, old(log).ban(), remove@),
    {
        match check_invite_links(&self.invites) {
            Some(warning) => {
                self.stage = Stage::Done;
                Action::Warn { remove, warning }
            },
            None => {
                let keys = guild_keys_of(&self.invites);
                let c = gather(log, &self.message, &keys, self.now);
                if c.len() == 0 {
                    commit(log, &self.message, &self.invites, self.now);
                    self.stage = Stage::Done;
                    Action::Pass { remove }
                } else {
                    let fetch = refs_of(&c);
                    self.candidates = c;
                    self.stage = Stage::AwaitGuildFetch;
                    Action::Fetch { remove, fetch }
                }
            },
        }
    }

    fn run_after_lookup(&mut self, log: &mut HistoryLog, answers: &Vec<Option<DiscordInvite>>) -> (r:
        Action)
        requires
            old(self).wf(),
        ensures
            final(self).wf(),
            final(log).ban() == old(log).ban(),
            old(log).wf() ==> final(log).wf(),
            (final(self)@, final(log)@, r@) == after_lookup(old(self)@, old(log)@, old(log).ban(), answers@),
    {
        self.invites = self.finder.resolve(answers);
        match check_invite_links(&self.invites) {
            Some(Warning::InvalidInvites(links)) => {
                self.stage = Stage::Done;
                return Action::Warn { remove: Vec::new(), warning: Warning::InvalidInvites(links) };
            },
            _ => {},
        }
        match check_invite_message(self.message.content.as_str(), &self.finder, self.required_length) {
            Some(warning) => {
                self.stage = Stage::Done;
                return Action::Warn { remove: Vec::new(), warning };
            },
            None => {},
        }
        let keys = code_keys_of(&self.invites);
        let c = gather(log, &self.message, &keys, self.now);
        if c.len() == 0 {
            self.run_guild_phase(log, Vec::new())
        } else {
            let fetch = refs_of(&c);
            self.candidates = c;
            self.stage = Stage::AwaitCodeFetch;
            Action::Fetch { remove: Vec::new(), fetch }
        }
    }

    fn run_after_fetch(&mut self, log: &mut HistoryLog, found: &Vec<bool>) -> (r: Action)
        requires
            old(self).wf(),
            old(self)@.stage == Stage::AwaitCodeFetch || old(self)@.stage == Stage::AwaitGuildFetch,
        ensures
            final(self).wf(),
            final(log).ban() == old(log).ban(),
            old(log).wf() ==> final(log).wf(),
            (final(self)@, final(log)@, r@) == after_fetch(old(self)@, old(log)@, old(log).ban(), found@),
    {
        let (kept, remove) = settle(log, &self.candidates, found, self.message.author_id, self.now);
        if kept.len() > 0 {
            self.stage = Stage::Done;
            Action::Warn { remove, warning: history_warning_of(&kept) }
        } else if self.stage == Stage::AwaitCodeFetch {
            self.run_guild_phase(log, remove)
        } else {
            commit(log, &self.message, &self.invites, self.now);
            self.stage = Stage::Done;
            Action::Pass { remove }
        }
    }

    /// Takes the caller's answer to the last action and decides the next one.
    pub fn step(&mut self, log: &mut HistoryLog, event: Event) -> (r: Action)
        requires
            old(self).wf(),
        ensures
            final(self).wf(),
            final(log).ban() == old(log).ban(),
            old(log).wf() ==> final(log).wf(),
            (final(self)@, final(log)@, r@) == next(old(self)@, old(log)@, old(log).ban(), event),
    {
        match &event {
            Event::LookedUp(answers) => {
                if self.stage == Stage::AwaitLookup {
                    return self.run_after_lookup(log, answers);
                }
            },
            Event::Fetched(found) => {
                if self.stage == Stage::AwaitCodeFetch || self.stage == Stage::AwaitGuildFetch {
                    return self.run_after_fetch(log, found);
                }
            },
        }
        self.stage = Stage::Done;
        Action::Abandon
    }
}

} // verus!
