//! The advertisement history: what was advertised, by whom, when and where,
//! with the ban windows that decide which records block a new advertisement.

use vstd::prelude::*;

use crate::config::BanPeriodConfig;

verus! {

/// One advertisement that passed the checks: a message that carried an invite code.
#[derive(Debug, Clone)]
pub struct HistoryRecord {
    /// The invite code.
    pub invite_code: String,
    /// The guild the invite leads to.
    pub invite_guild_id: u64,
    /// The guild the message was posted in.
    pub guild_id: Option<u64>,
    pub channel_id: u64,
    pub message_id: u64,
    /// The author of the message.
    pub user_id: u64,
    /// When the message was posted (unix seconds).
    pub timestamp: i64,
    /// The message is gone, but the record is kept for the ban windows.
    pub deleted: bool,
}

/// A record as the contracts see it.
pub struct RecordView {
    pub invite_code: Seq<char>,
    pub invite_guild_id: u64,
    pub guild_id: Option<u64>,
    pub channel_id: u64,
    pub message_id: u64,
    pub user_id: u64,
    pub timestamp: i64,
    pub deleted: bool,
}

impl View for HistoryRecord {
    type V = RecordView;

    open spec fn view(&self) -> RecordView {
        RecordView {
            invite_code: self.invite_code@,
            invite_guild_id: self.invite_guild_id,
            guild_id: self.guild_id,
            channel_id: self.channel_id,
            message_id: self.message_id,
            user_id: self.user_id,
            timestamp: self.timestamp,
            deleted: self.deleted,
        }
    }
}

impl HistoryRecord {
    /// A field-by-field copy.
    pub fn copied(&self) -> (r: HistoryRecord)
        ensures
            r@ == self@,
    {
        HistoryRecord {
            invite_code: self.invite_code.clone(),
            invite_guild_id: self.invite_guild_id,
            guild_id: self.guild_id,
            channel_id: self.channel_id,
            message_id: self.message_id,
            user_id: self.user_id,
            timestamp: self.timestamp,
            deleted: self.deleted,
        }
    }
}

/// What a history lookup compares: the invite code, or the guild it leads to.
#[derive(Debug, Clone)]
pub enum HistoryFindKey {
    InviteCode(String),
    InviteGuildId(u64),
}

/// A history key as the contracts see it.
pub enum FindKeyView {
    InviteCode(Seq<char>),
    InviteGuildId(u64),
}

impl View for HistoryFindKey {
    type V = FindKeyView;

    open spec fn view(&self) -> FindKeyView {
        match self {
            HistoryFindKey::InviteCode(code) => FindKeyView::InviteCode(code@),
            HistoryFindKey::InviteGuildId(guild) => FindKeyView::InviteGuildId(*guild),
        }
    }
}

/// The record carries the value that `key` looks for.
pub open spec fn key_matches(key: FindKeyView, r: RecordView) -> bool {
    match key {
        FindKeyView::InviteCode(code) => r.invite_code == code,
        FindKeyView::InviteGuildId(guild) => r.invite_guild_id == guild,
    }
}

/// Two records stand for the same advertisement: same message, same code.
pub open spec fn same_key(a: RecordView, b: RecordView) -> bool {
    a.message_id == b.message_id && a.invite_code == b.invite_code
}

/// The start of the repost grace period: records after it are the author's to retract.
pub open spec fn grace_start(ban: BanPeriodConfig, now: i64) -> int {
    now - ban.min_per_user_start * 60
}

/// The start of the window in which a user's own advertisement blocks them.
pub open spec fn self_window_start(ban: BanPeriodConfig, now: i64) -> int {
    now - ban.day_per_user * 86400
}

/// The start of the window in which another user's advertisement blocks.
pub open spec fn others_window_start(ban: BanPeriodConfig, now: i64) -> int {
    now - ban.day * 86400
}

/// The record is recent enough, for a message by `user`, to block it.
pub open spec fn in_window(r: RecordView, user: u64, ban: BanPeriodConfig, now: i64) -> bool {
    if r.user_id == user {
        self_window_start(ban, now) < r.timestamp
    } else {
        others_window_start(ban, now) < r.timestamp
    }
}

/// The record is one that `validate` reports.
pub open spec fn blocks(
    r: RecordView,
    exclude: u64,
    channel: u64,
    user: u64,
    key: FindKeyView,
    ban: BanPeriodConfig,
    now: i64,
) -> bool {
    &&& r.message_id != exclude
    &&& r.channel_id == channel
    &&& key_matches(key, r)
    &&& in_window(r, user, ban, now)
}

/// Holds of the records whose key differs from that of `r`.
pub open spec fn other_key(r: RecordView) -> spec_fn(RecordView) -> bool {
    |x: RecordView| !same_key(x, r)
}

/// The records after `r` has been put in, replacing the one with the same key.
pub open spec fn upserted(s: Seq<RecordView>, r: RecordView) -> Seq<RecordView> {
    s.filter(other_key(r)).push(r)
}

/// The retention horizon: the start of the longer of the two ban windows.
/// A record at or before it can block nobody any more.
pub open spec fn horizon_start(ban: BanPeriodConfig, now: i64) -> int {
    if self_window_start(ban, now) <= others_window_start(ban, now) {
        self_window_start(ban, now)
    } else {
        others_window_start(ban, now)
    }
}

/// The record is hard-deleted when its message goes: it is younger than the
/// grace period (retracted by its author), or past the retention horizon.
pub open spec fn retracted(r: RecordView, message: u64, ban: BanPeriodConfig, now: i64) -> bool {
    r.message_id == message && (grace_start(ban, now) < r.timestamp || r.timestamp <= horizon_start(
        ban,
        now,
    ))
}

/// The record after its message is gone (for any other message, unchanged).
pub open spec fn marked(r: RecordView, message: u64) -> RecordView {
    if r.message_id == message {
        RecordView { deleted: true, ..r }
    } else {
        r
    }
}

/// Holds of the records that outlive the deletion of `message`.
pub open spec fn survives(message: u64, ban: BanPeriodConfig, now: i64) -> spec_fn(RecordView) -> bool {
    |x: RecordView| !retracted(x, message, ban, now)
}

/// The records after `message` is gone: removed within the grace period or past
/// the retention horizon, marked in between.
pub open spec fn after_delete(s: Seq<RecordView>, message: u64, ban: BanPeriodConfig, now: i64) -> Seq<
    RecordView,
> {
    s.filter(survives(message, ban, now)).map_values(|x: RecordView| marked(x, message))
}

/// The records after each message of `messages` is gone, in turn.
pub open spec fn after_delete_all(
    s: Seq<RecordView>,
    messages: Seq<u64>,
    ban: BanPeriodConfig,
    now: i64,
) -> Seq<RecordView>
    decreases messages.len(),
{
    if messages.len() == 0 {
        s
    } else {
        after_delete(after_delete_all(s, messages.drop_last(), ban, now), messages.last(), ban, now)
    }
}

/// Holds of the records that `validate` reports.
pub open spec fn blocking(
    exclude: u64,
    channel: u64,
    user: u64,
    key: FindKeyView,
    ban: BanPeriodConfig,
    now: i64,
) -> spec_fn(RecordView) -> bool {
    |x: RecordView| blocks(x, exclude, channel, user, key, ban, now)
}

/// Holds of the live records of `user` in `guild`. A record without a guild
/// belongs to none, and no lookup without a guild finds anything.
pub open spec fn by_user(guild: Option<u64>, user: u64) -> spec_fn(RecordView) -> bool {
    |x: RecordView| x.guild_id is Some && guild == x.guild_id && x.user_id == user && !x.deleted
}

/// The views of a sequence of records.
pub open spec fn record_views(s: Seq<HistoryRecord>) -> Seq<RecordView> {
    s.map_values(|r: HistoryRecord| r@)
}

/// No two records share a message and a code.
pub open spec fn unique_keys(s: Seq<RecordView>) -> bool {
    forall|i: int, j: int| 0 <= i < j < s.len() ==> !same_key(#[trigger] s[i], #[trigger] s[j])
}

/// A filter keeps keys unique.
proof fn lemma_filter_unique(s: Seq<RecordView>, p: spec_fn(RecordView) -> bool)
    requires
        unique_keys(s),
    ensures
        unique_keys(s.filter(p)),
    decreases s.len(),
{
    reveal(Seq::filter);
    if s.len() > 0 {
        let rest = s.drop_last();
        assert(unique_keys(rest));
        lemma_filter_unique(rest, p);
        if p(s.last()) {
            let f = rest.filter(p);
            assert forall|i: int| 0 <= i < f.len() implies !same_key(f[i], s.last()) by {
                assert(f.contains(f[i]));
                rest.lemma_filter_contains_rev(p, f[i]);
                let k = choose|k: int| 0 <= k < rest.len() && rest[k] == f[i];
                assert(s[k] == rest[k]);
            }
            assert(unique_keys(f.push(s.last())));
        }
    }
}

/// Putting a record in keeps keys unique.
proof fn lemma_upserted_unique(s: Seq<RecordView>, r: RecordView)
    requires
        unique_keys(s),
    ensures
        unique_keys(upserted(s, r)),
{
    let f = s.filter(other_key(r));
    lemma_filter_unique(s, other_key(r));
    assert forall|i: int| 0 <= i < f.len() implies !same_key(f[i], r) by {
        s.lemma_filter_pred(other_key(r), i);
    }
    assert(unique_keys(f.push(r)));
}

/// Deleting a message keeps keys unique.
proof fn lemma_after_delete_unique(s: Seq<RecordView>, message: u64, ban: BanPeriodConfig, now: i64)
    requires
        unique_keys(s),
    ensures
        unique_keys(after_delete(s, message, ban, now)),
{
    lemma_filter_unique(s, survives(message, ban, now));
}

/// A filter that every element passes keeps the sequence as it is.
pub proof fn lemma_filter_keeps_all<A>(s: Seq<A>, p: spec_fn(A) -> bool)
    requires
        forall|i: int| 0 <= i < s.len() ==> p(#[trigger] s[i]),
    ensures
        s.filter(p) == s,
    decreases s.len(),
{
    reveal(Seq::filter);
    if s.len() > 0 {
        lemma_filter_keeps_all(s.drop_last(), p);
        assert(s.drop_last().push(s.last()) =~= s);
    }
}

/// A filter that no element passes keeps nothing.
pub proof fn lemma_filter_keeps_none<A>(s: Seq<A>, p: spec_fn(A) -> bool)
    requires
        forall|i: int| 0 <= i < s.len() ==> !p(#[trigger] s[i]),
    ensures
        s.filter(p).len() == 0,
{
    if s.filter(p).len() > 0 {
        let x = s.filter(p)[0];
        assert(s.filter(p).contains(x));
        s.lemma_filter_pred(p, 0);
        s.lemma_filter_contains_rev(p, x);
    }
}

/// What a filter keeps passes it.
proof fn lemma_filter_member(s: Seq<RecordView>, p: spec_fn(RecordView) -> bool, x: RecordView)
    requires
        s.filter(p).contains(x),
    ensures
        p(x),
        s.contains(x),
{
    let i = choose|i: int| 0 <= i < s.filter(p).len() && s.filter(p)[i] == x;
    s.lemma_filter_pred(p, i);
    s.lemma_filter_contains_rev(p, x);
}

/// Deleting a message a second time changes nothing: what the first deletion
/// left of its records is marked deleted, older than the grace period and
/// younger than the retention horizon.
pub proof fn lemma_delete_twice(s: Seq<RecordView>, message: u64, ban: BanPeriodConfig, now: i64)
    ensures
        after_delete(after_delete(s, message, ban, now), message, ban, now) == after_delete(
            s,
            message,
            ban,
            now,
        ),
{
    let kept = s.filter(survives(message, ban, now));
    let t = after_delete(s, message, ban, now);
    assert forall|i: int| 0 <= i < t.len() && (#[trigger] t[i]).message_id == message implies t[i].deleted
        && t[i].timestamp <= grace_start(ban, now) && horizon_start(ban, now) < t[i].timestamp by {
        s.lemma_filter_pred(survives(message, ban, now), i);
    }
    lemma_filter_keeps_all(t, survives(message, ban, now));
    assert(t.map_values(|x: RecordView| marked(x, message)) =~= t);
}

/// A record past the retention horizon blocks nobody, whoever asks and
/// whatever key is looked for.
pub proof fn lemma_past_horizon_never_blocks(
    r: RecordView,
    exclude: u64,
    channel: u64,
    user: u64,
    key: FindKeyView,
    ban: BanPeriodConfig,
    now: i64,
)
    requires
        r.timestamp <= horizon_start(ban, now),
    ensures
        !blocks(r, exclude, channel, user, key, ban, now),
{
}

/// Whether a record blocks depends on who asks: another user is blocked for
/// the others' window, its own author for the (shorter or longer) own window.
pub proof fn lemma_window_asymmetry(
    s: Seq<RecordView>,
    r: RecordView,
    exclude: u64,
    user: u64,
    key: FindKeyView,
    ban: BanPeriodConfig,
    now: i64,
)
    requires
        s.contains(r),
        r.message_id != exclude,
        key_matches(key, r),
    ensures
        s.filter(blocking(exclude, r.channel_id, user, key, ban, now)).contains(r) <==> if user
            == r.user_id {
            self_window_start(ban, now) < r.timestamp
        } else {
            others_window_start(ban, now) < r.timestamp
        },
{
    let p = blocking(exclude, r.channel_id, user, key, ban, now);
    if s.filter(p).contains(r) {
        lemma_filter_member(s, p, r);
    }
    if p(r) {
        let i = choose|i: int| 0 <= i < s.len() && s[i] == r;
        s.lemma_filter_contains(p, i);
    }
}

/// A record put in outside every ban window is not found again: where
/// `validate` found nothing before, it finds nothing after.
pub proof fn lemma_insert_outside_windows(
    s: Seq<RecordView>,
    r: RecordView,
    exclude: u64,
    key: FindKeyView,
    ban: BanPeriodConfig,
    now: i64,
)
    requires
        r.timestamp <= self_window_start(ban, now),
        r.timestamp <= others_window_start(ban, now),
        s.filter(blocking(exclude, r.channel_id, r.user_id, key, ban, now)).len() == 0,
    ensures
        upserted(s, r).filter(blocking(exclude, r.channel_id, r.user_id, key, ban, now)).len() == 0,
{
    let p = blocking(exclude, r.channel_id, r.user_id, key, ban, now);
    let kept = s.filter(other_key(r));
    kept.lemma_filter_push(r, p);
    if kept.filter(p).len() > 0 {
        let x = kept.filter(p)[0];
        assert(kept.filter(p).contains(x));
        lemma_filter_member(kept, p, x);
        lemma_filter_member(s, other_key(r), x);
        let j = choose|j: int| 0 <= j < s.len() && s[j] == x;
        s.lemma_filter_contains(p, j);
    }
}

/// The advertisement history of the moderated channels.
pub struct HistoryLog {
    records: Vec<HistoryRecord>,
    /// The ban windows that lookups and deletions apply.
    ban_period: BanPeriodConfig,
}

impl View for HistoryLog {
    type V = Seq<RecordView>;

    closed spec fn view(&self) -> Seq<RecordView> {
        record_views(self.records@)
    }
}

impl HistoryLog {
    /// The ban windows of this history.
    pub closed spec fn ban(&self) -> BanPeriodConfig {
        self.ban_period
    }

    /// At most one record per message and code.
    pub open spec fn wf(&self) -> bool {
        unique_keys(self@)
    }
}

fn cutoff(now: i64, amount: i64, unit: i64) -> (r: i128)
    requires
        0 < unit <= 86400,
    ensures
        r == now - amount * unit,
{
    assert(-9223372036854775808 * 86400 <= amount * unit <= 9223372036854775807 * 86400) by (nonlinear_arith)
        requires
            0 < unit <= 86400,
            -9223372036854775808 <= amount <= 9223372036854775807,
    ;
    now as i128 - (amount as i128) * (unit as i128)
}

/// The start of the repost grace period, computed without overflow.
pub(crate) fn cutoff_minutes(now: i64, minutes: i64) -> (r: i128)
    ensures
        r == now - minutes * 60,
{
    cutoff(now, minutes, 60)
}

impl HistoryLog {
    /// An empty history.
    pub fn new(ban_period: BanPeriodConfig) -> (r: HistoryLog)
        ensures
            r@ == Seq::<RecordView>::empty(),
            r.ban() == ban_period,
            r.wf(),
    {
        let r = HistoryLog { records: Vec::new(), ban_period };
        assert(r@ =~= Seq::<RecordView>::empty());
        r
    }

    /// The ban windows that lookups and deletions apply.
    pub fn ban_period(&self) -> (r: BanPeriodConfig)
        ensures
            r == self.ban(),
    {
        self.ban_period
    }

    /// The records, in the order kept.
    pub fn records(&self) -> (r: &Vec<HistoryRecord>)
        ensures
            record_views(r@) == self@,
    {
        &self.records
    }

    /// Puts a record in; one with the same message and code is replaced.
    pub fn insert(&mut self, record: HistoryRecord)
        ensures
            final(self)@ == upserted(old(self)@, record@),
            final(self).ban() == old(self).ban(),
            old(self).wf() ==> final(self).wf(),
    {
        proof {
            if old(self).wf() {
                lemma_upserted_unique(old(self)@, record@);
            }
        }
        let ghost pred = other_key(record@);
        let mut kept: Vec<HistoryRecord> = Vec::new();
        let mut i: usize = 0;
        while i < self.records.len()
            invariant
                i <= self.records@.len(),
                pred == other_key(record@),
                record_views(kept@) == self@.subrange(0, i as int).filter(pred),
            decreases self.records.len() - i,
        {
            let r = &self.records[i];
            proof {
                let s = self@.subrange(0, i as int);
                assert(self@.subrange(0, i + 1) =~= s.push(r@));
                s.lemma_filter_push(r@, pred);
            }
            if !(r.message_id == record.message_id && r.invite_code == record.invite_code) {
                kept.push(r.copied());
                assert(record_views(kept@) =~= self@.subrange(0, i as int).filter(pred).push(r@));
            } else {
                assert(record_views(kept@) =~= self@.subrange(0, i as int).filter(pred));
            }
            i += 1;
        }
        assert(self@.subrange(0, i as int) =~= self@);
        kept.push(record);
        self.records = kept;
        assert(self@ =~= upserted(old(self)@, record@));
    }

    /// The message is gone: its records are removed if younger than the grace
    /// period or past the retention horizon, and otherwise marked deleted.
    pub fn delete(&mut self, message_id: u64, now: i64)
        ensures
            final(self)@ == after_delete(old(self)@, message_id, old(self).ban(), now),
            final(self).ban() == old(self).ban(),
            old(self).wf() ==> final(self).wf(),
    {
        proof {
            if old(self).wf() {
                lemma_after_delete_unique(old(self)@, message_id, old(self).ban(), now);
            }
        }
        let start = cutoff(now, self.ban_period.min_per_user_start, 60);
        let own_start = cutoff(now, self.ban_period.day_per_user, 86400);
        let others_start = cutoff(now, self.ban_period.day, 86400);
        let horizon = if own_start <= others_start {
            own_start
        } else {
            others_start
        };
        let ghost pred = survives(message_id, self.ban(), now);
        let ghost mark = |x: RecordView| marked(x, message_id);
        let mut kept: Vec<HistoryRecord> = Vec::new();
        let mut i: usize = 0;
        while i < self.records.len()
            invariant
                i <= self.records@.len(),
                start == grace_start(self.ban(), now),
                horizon == horizon_start(self.ban(), now),
                pred == survives(message_id, self.ban(), now),
                mark == (|x: RecordView| marked(x, message_id)),
                record_views(kept@) == self@.subrange(0, i as int).filter(pred).map_values(mark),
            decreases self.records.len() - i,
        {
            let r = &self.records[i];
            proof {
                let s = self@.subrange(0, i as int);
                assert(self@.subrange(0, i + 1) =~= s.push(r@));
                s.lemma_filter_push(r@, pred);
                assert(s.filter(pred).push(r@).map_values(mark) =~= s.filter(pred).map_values(mark).push(mark(r@)));
            }
            if r.message_id != message_id {
                kept.push(r.copied());
                assert(record_views(kept@) =~= self@.subrange(0, i + 1).filter(pred).map_values(mark));
            } else if (r.timestamp as i128) <= start && horizon < r.timestamp as i128 {
                let mut m = r.copied();
                m.deleted = true;
                kept.push(m);
                assert(record_views(kept@) =~= self@.subrange(0, i + 1).filter(pred).map_values(mark));
            }
            i += 1;
        }
        assert(self@.subrange(0, i as int) =~= self@);
        self.records = kept;
    }

    /// Each message of `message_ids` is gone, in turn.
    pub fn delete_all(&mut self, message_ids: &Vec<u64>, now: i64)
        ensures
            final(self)@ == after_delete_all(old(self)@, message_ids@, old(self).ban(), now),
            final(self).ban() == old(self).ban(),
            old(self).wf() ==> final(self).wf(),
    {
        let mut i: usize = 0;
        while i < message_ids.len()
            invariant
                i <= message_ids@.len(),
                self.ban() == old(self).ban(),
                self@ == after_delete_all(old(self)@, message_ids@.subrange(0, i as int), self.ban(), now),
                old(self).wf() ==> self.wf(),
            decreases message_ids.len() - i,
        {
            assert(message_ids@.subrange(0, i + 1).drop_last() =~= message_ids@.subrange(0, i as int));
            self.delete(message_ids[i], now);
            i += 1;
        }
        assert(message_ids@.subrange(0, i as int) =~= message_ids@);
    }

    /// The records of other messages in `channel_id` that carry `key` and are
    /// recent enough to block a new advertisement by `user_id`.
    pub fn validate(
        &self,
        event_message_id: u64,
        channel_id: u64,
        user_id: u64,
        key: &HistoryFindKey,
        now: i64,
    ) -> (r: Vec<HistoryRecord>)
        ensures
            record_views(r@) == self@.filter(
                blocking(event_message_id, channel_id, user_id, key@, self.ban(), now),
            ),
    {
        let own_start = cutoff(now, self.ban_period.day_per_user, 86400);
        let others_start = cutoff(now, self.ban_period.day, 86400);
        let ghost pred = blocking(event_message_id, channel_id, user_id, key@, self.ban(), now);
        let mut found: Vec<HistoryRecord> = Vec::new();
        let mut i: usize = 0;
        while i < self.records.len()
            invariant
                i <= self.records@.len(),
                own_start == self_window_start(self.ban(), now),
                others_start == others_window_start(self.ban(), now),
                pred == blocking(event_message_id, channel_id, user_id, key@, self.ban(), now),
                record_views(found@) == self@.subrange(0, i as int).filter(pred),
            decreases self.records.len() - i,
        {
            let r = &self.records[i];
            proof {
                let s = self@.subrange(0, i as int);
                assert(self@.subrange(0, i + 1) =~= s.push(r@));
                s.lemma_filter_push(r@, pred);
            }
            let key_hit = match key {
                HistoryFindKey::InviteCode(code) => r.invite_code == *code,
                HistoryFindKey::InviteGuildId(guild) => r.invite_guild_id == *guild,
            };
            let start = if r.user_id == user_id {
                own_start
            } else {
                others_start
            };
            if r.message_id != event_message_id && r.channel_id == channel_id && key_hit && start
                < r.timestamp as i128 {
                found.push(r.copied());
                assert(record_views(found@) =~= self@.subrange(0, i + 1).filter(pred));
            } else {
                assert(record_views(found@) =~= self@.subrange(0, i + 1).filter(pred));
            }
            i += 1;
        }
        assert(self@.subrange(0, i as int) =~= self@);
        found
    }

    /// The live records of `user_id` posted in `guild_id`.
    pub fn get_records_by_user(&self, guild_id: Option<u64>, user_id: u64) -> (r: Vec<HistoryRecord>)
        ensures
            record_views(r@) == self@.filter(by_user(guild_id, user_id)),
    {
        let ghost pred = by_user(guild_id, user_id);
        let mut found: Vec<HistoryRecord> = Vec::new();
        let mut i: usize = 0;
        while i < self.records.len()
            invariant
                i <= self.records@.len(),
                pred == by_user(guild_id, user_id),
                record_views(found@) == self@.subrange(0, i as int).filter(pred),
            decreases self.records.len() - i,
        {
            let r = &self.records[i];
            proof {
                let s = self@.subrange(0, i as int);
                assert(self@.subrange(0, i + 1) =~= s.push(r@));
                s.lemma_filter_push(r@, pred);
            }
            let same_guild = match (r.guild_id, guild_id) {
                (Some(a), Some(b)) => a == b,
                _ => false,
            };
            if same_guild && r.user_id == user_id && !r.deleted {
                found.push(r.copied());
                assert(record_views(found@) =~= self@.subrange(0, i + 1).filter(pred));
            } else {
                assert(record_views(found@) =~= self@.subrange(0, i + 1).filter(pred));
            }
            i += 1;
        }
        assert(self@.subrange(0, i as int) =~= self@);
        found
    }
}

} // verus!
