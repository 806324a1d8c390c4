//! Invite links in message text: where they stand (a scheme-optional link to
//! one of the invite hosts, then a code of ASCII letters and digits), and
//! what their lookup tells of them.

use vstd::prelude::*;

verus! {

/// A character that may appear in an invite code.
pub open spec fn is_code_char(c: char) -> bool {
    ('A' <= c && c <= 'Z') || ('a' <= c && c <= 'z') || ('0' <= c && c <= '9')
}

/// `word` stands in `t` at position `p`.
pub open spec fn has_at(t: Seq<char>, p: int, word: Seq<char>) -> bool {
    0 <= p && p + word.len() <= t.len() && t.subrange(p, p + word.len()) == word
}

pub open spec fn word_https() -> Seq<char> {
    seq!['h', 't', 't', 'p', 's', ':', '/', '/']
}

pub open spec fn word_http() -> Seq<char> {
    seq!['h', 't', 't', 'p', ':', '/', '/']
}

pub open spec fn word_discord_dot() -> Seq<char> {
    seq!['d', 'i', 's', 'c', 'o', 'r', 'd', '.']
}

/// The short-link domains that follow `discord.`, each with its slash.
pub open spec fn short_tlds() -> Seq<Seq<char>> {
    seq![seq!['g', 'g', '/'], seq!['i', 'o', '/'], seq!['m', 'e', '/'], seq!['l', 'i', '/']]
}

pub open spec fn word_com_invite() -> Seq<char> {
    seq!['c', 'o', 'm', '/', 'i', 'n', 'v', 'i', 't', 'e', '/']
}

pub open spec fn word_discordapp() -> Seq<char> {
    seq!['d', 'i', 's', 'c', 'o', 'r', 'd', 'a', 'p', 'p', '.']
}

/// Length of the optional scheme (`https://` or `http://`) at `p`, 0 if none.
pub open spec fn scheme_len(t: Seq<char>, p: int) -> int {
    if has_at(t, p, word_https()) {
        8
    } else if has_at(t, p, word_http()) {
        7
    } else {
        0
    }
}

/// Length of an invite host with its trailing slash at `q`, 0 if none:
/// `discord.gg/`, `discord.io/`, `discord.me/`, `discord.li/`,
/// `discord.com/invite/` or `discordapp.com/invite/`.
pub open spec fn host_len(t: Seq<char>, q: int) -> int {
    if has_at(t, q, word_discord_dot()) {
        if exists|k: int| 0 <= k < 4 && has_at(t, q + 8, #[trigger] short_tlds()[k]) {
            11
        } else if has_at(t, q + 8, word_com_invite()) {
            19
        } else {
            0
        }
    } else if has_at(t, q, word_discordapp()) && has_at(t, q + 11, word_com_invite()) {
        22
    } else {
        0
    }
}

/// Number of invite-code characters in the run that starts at `q`.
pub open spec fn code_run(t: Seq<char>, q: int) -> nat
    decreases t.len() - q,
{
    if 0 <= q < t.len() && is_code_char(t[q]) {
        1 + code_run(t, q + 1)
    } else {
        0
    }
}

/// Where the code of an invite link that starts at `p` begins, if one starts there.
pub open spec fn code_start(t: Seq<char>, p: int) -> int {
    p + scheme_len(t, p) + host_len(t, p + scheme_len(t, p))
}

/// An invite link starts at `p`: scheme (optional), host, and a non-empty code.
pub open spec fn link_at(t: Seq<char>, p: int) -> bool {
    host_len(t, p + scheme_len(t, p)) > 0 && code_run(t, code_start(t, p)) > 0
}

/// End of the invite link that starts at `p`; the code takes every code
/// character that follows the host.
pub open spec fn link_end(t: Seq<char>, p: int) -> int {
    code_start(t, p) + code_run(t, code_start(t, p))
}

/// The invite links of `t` from position `p` on, as (start, code start, end),
/// found left to right, each search going on where the previous link ended.
pub open spec fn links_from(t: Seq<char>, p: int) -> Seq<(int, int, int)>
    decreases (t.len() - p) as nat
    via links_from_decreases
{
    if p < 0 || p >= t.len() {
        Seq::empty()
    } else if link_at(t, p) {
        seq![(p, code_start(t, p), link_end(t, p))] + links_from(t, link_end(t, p))
    } else {
        links_from(t, p + 1)
    }
}

/// An invite link as the contracts see it.
pub struct InviteLinkView {
    pub link: Seq<char>,
    pub code: Seq<char>,
    pub expires_at: Option<i64>,
    pub guild_id: Option<u64>,
}

/// The link found at `span` of `t`, before any lookup.
pub open spec fn span_view(t: Seq<char>, span: (int, int, int)) -> InviteLinkView {
    InviteLinkView {
        link: t.subrange(span.0, span.2),
        code: t.subrange(span.1, span.2),
        expires_at: None,
        guild_id: None,
    }
}

/// The invite links of a message text, in order of appearance.
pub open spec fn extract(t: Seq<char>) -> Seq<InviteLinkView> {
    links_from(t, 0).map_values(|span: (int, int, int)| span_view(t, span))
}

/// One invite link of a message, with what its lookup told of it.
#[derive(Debug)]
pub struct DiscordInviteLink {
    /// The whole link as it stands in the message.
    pub invite_link: String,
    /// The invite code at the end of the link.
    pub invite_code: String,
    /// When the invite expires (unix seconds); `None` for a permanent one.
    pub expires_at: Option<i64>,
    /// The guild the invite leads to; `None` until looked up, or when the lookup failed.
    pub guild_id: Option<u64>,
}

impl View for DiscordInviteLink {
    type V = InviteLinkView;

    open spec fn view(&self) -> InviteLinkView {
        InviteLinkView {
            link: self.invite_link@,
            code: self.invite_code@,
            expires_at: self.expires_at,
            guild_id: self.guild_id,
        }
    }
}

/// The views of a sequence of links.
pub open spec fn link_views(v: Seq<DiscordInviteLink>) -> Seq<InviteLinkView> {
    v.map_values(|l: DiscordInviteLink| l@)
}

/// The invite links found in one message.
#[derive(Debug)]
pub struct InviteFinder {
    pub invite_codes: Vec<DiscordInviteLink>,
}

impl View for InviteFinder {
    type V = Seq<InviteLinkView>;

    open spec fn view(&self) -> Seq<InviteLinkView> {
        link_views(self.invite_codes@)
    }
}

fn text_chars(s: &str) -> (r: Vec<char>)
    ensures
        r@ == s@,
{
    let mut r: Vec<char> = Vec::new();
    let n = s.unicode_len();
    let mut i: usize = 0;
    while i < n
        invariant
            n == s@.len(),
            i <= n,
            r@ == s@.subrange(0, i as int),
        decreases n - i,
    {
        r.push(s.get_char(i));
        i += 1;
        assert(r@ =~= s@.subrange(0, i as int));
    }
    assert(r@ =~= s@);
    r
}

fn word_at(t: &Vec<char>, p: usize, w: &[char]) -> (r: bool)
    ensures
        r == has_at(t@, p as int, w@),
        r ==> p + w@.len() <= t.len(),
{
    if p > t.len() || w.len() > t.len() - p {
        return false;
    }
    let mut i: usize = 0;
    while i < w.len()
        invariant
            p + w@.len() <= t@.len(),
            t@.len() == t.len(),
            i <= w@.len(),
            forall|j: int| 0 <= j < i ==> t@[p + j] == w@[j],
        decreases w.len() - i,
    {
        if t[p + i] != w[i] {
            assert(t@.subrange(p as int, p + w@.len())[i as int] != w@[i as int]);
            return false;
        }
        i += 1;
    }
    assert(t@.subrange(p as int, p + w@.len()) =~= w@);
    true
}

fn scheme_len_at(t: &Vec<char>, p: usize) -> (r: usize)
    ensures
        r == scheme_len(t@, p as int),
        p + r <= t@.len() || r == 0,
{
    let https = ['h', 't', 't', 'p', 's', ':', '/', '/'];
    let http = ['h', 't', 't', 'p', ':', '/', '/'];
    assert(https@ =~= word_https());
    assert(http@ =~= word_http());
    if word_at(t, p, &https) {
        8
    } else if word_at(t, p, &http) {
        7
    } else {
        0
    }
}

fn host_len_at(t: &Vec<char>, q: usize) -> (r: usize)
    ensures
        r == host_len(t@, q as int),
        q + r <= t@.len() || r == 0,
{
    let discord_dot = ['d', 'i', 's', 'c', 'o', 'r', 'd', '.'];
    let discordapp = ['d', 'i', 's', 'c', 'o', 'r', 'd', 'a', 'p', 'p', '.'];
    let com_invite = ['c', 'o', 'm', '/', 'i', 'n', 'v', 'i', 't', 'e', '/'];
    let gg = ['g', 'g', '/'];
    let io = ['i', 'o', '/'];
    let me = ['m', 'e', '/'];
    let li = ['l', 'i', '/'];
    assert(discord_dot@ =~= word_discord_dot());
    assert(discordapp@ =~= word_discordapp());
    assert(com_invite@ =~= word_com_invite());
    assert(gg@ =~= short_tlds()[0]);
    assert(io@ =~= short_tlds()[1]);
    assert(me@ =~= short_tlds()[2]);
    assert(li@ =~= short_tlds()[3]);
    if word_at(t, q, &discord_dot) {
        let tld = q + 8;
        if word_at(t, tld, &gg) || word_at(t, tld, &io) || word_at(t, tld, &me) || word_at(
            t,
            tld,
            &li,
        ) {
            11
        } else if word_at(t, tld, &com_invite) {
            19
        } else {
            assert forall|k: int| 0 <= k < 4 implies !has_at(t@, q + 8, #[trigger] short_tlds()[k]) by {
                if k == 0 {} else if k == 1 {} else if k == 2 {} else {}
            }
            0
        }
    } else if word_at(t, q, &discordapp) && word_at(t, q + 11, &com_invite) {
        22
    } else {
        0
    }
}

fn code_char(c: char) -> (r: bool)
    ensures
        r == is_code_char(c),
{
    ('A' <= c && c <= 'Z') || ('a' <= c && c <= 'z') || ('0' <= c && c <= '9')
}

fn code_run_at(t: &Vec<char>, q: usize) -> (r: usize)
    requires
        q <= t@.len(),
    ensures
        r == code_run(t@, q as int),
        q + r <= t@.len(),
{
    let mut e: usize = q;
    while e < t.len() && code_char(t[e])
        invariant
            q <= e <= t@.len(),
            code_run(t@, q as int) == (e - q) + code_run(t@, e as int),
        decreases t.len() - e,
    {
        e += 1;
    }
    e - q
}

impl InviteFinder {
    /// Finds the invite links of a message, left to right, none overlapping.
    pub fn new(message: &str) -> (r: InviteFinder)
        ensures
            r@ == extract(message@),
    {
        let t = text_chars(message);
        let ghost text = message@;
        let ghost mut found: Seq<(int, int, int)> = Seq::empty();
        let mut invite_codes: Vec<DiscordInviteLink> = Vec::new();
        let mut p: usize = 0;
        while p < t.len()
            invariant
                t@ == text,
                text == message@,
                p <= t@.len(),
                found + links_from(text, p as int) == links_from(text, 0),
                invite_codes@.len() == found.len(),
                forall|i: int|
                    0 <= i < found.len() ==> invite_codes@[i]@ == span_view(text, #[trigger] found[i]),
            decreases t.len() - p,
        {
            let s = scheme_len_at(&t, p);
            let h = if p + s <= t.len() {
                host_len_at(&t, p + s)
            } else {
                0
            };
            if h > 0 {
                let cs = p + s + h;
                let n = code_run_at(&t, cs);
                if n > 0 {
                    let e = cs + n;
                    let link = String::from_str(message.substring_char(p, e));
                    let code = String::from_str(message.substring_char(cs, e));
                    proof {
                        let span = (p as int, cs as int, e as int);
                        assert(links_from(text, p as int) == seq![span] + links_from(text, e as int));
                        assert(found + links_from(text, p as int) =~= found.push(span) + links_from(text, e as int));
                        found = found.push(span);
                    }
                    invite_codes.push(
                        DiscordInviteLink {
                            invite_link: link,
                            invite_code: code,
                            expires_at: None,
                            guild_id: None,
                        },
                    );
                    p = e;
                    continue;
                }
            }
            assert(!link_at(text, p as int));
            p += 1;
        }
        assert(found =~= links_from(text, 0));
        let r = InviteFinder { invite_codes };
        assert(r@ =~= extract(message@));
        r
    }
}

/// The guild part of an invite lookup answer.
#[derive(Debug)]
pub struct DiscordInviteGuild {
    pub id: u64,
}

/// What the invite lookup service answered for one code.
#[derive(Debug)]
pub struct DiscordInvite {
    /// Expiry as an RFC 3339 timestamp; `None` for a permanent invite.
    pub expires_at: Option<String>,
    /// The guild the invite leads to, when the answer names one.
    pub guild: Option<DiscordInviteGuild>,
}

/// The unix time that an RFC 3339 timestamp stands for, or `None` where the
/// text is no such timestamp.
pub uninterp spec fn rfc3339_seconds(s: Seq<char>) -> Option<i64>;

/// Relies on chrono's `DateTime::parse_from_rfc3339` and `DateTime::timestamp`:
/// the parse depends on the text alone.
#[verifier::external_body]
fn parse_rfc3339(s: &str) -> (r: Option<i64>)
    ensures
        r == rfc3339_seconds(s@),
{
    match chrono::DateTime::parse_from_rfc3339(s) {
        Ok(d) => Some(d.timestamp()),
        Err(_) => None,
    }
}

/// A link that could not be resolved: no guild, no expiry.
pub open spec fn unresolved(l: InviteLinkView) -> InviteLinkView {
    InviteLinkView { expires_at: None, guild_id: None, ..l }
}

/// The link `l` enriched with a lookup `answer`. A failed lookup, or an expiry
/// that is no valid timestamp, leaves it unresolved.
pub open spec fn resolved(l: InviteLinkView, answer: Option<DiscordInvite>) -> InviteLinkView {
    match answer {
        None => unresolved(l),
        Some(a) => {
            let guild_id = match a.guild {
                Some(g) => Some(g.id),
                None => None,
            };
            match a.expires_at {
                None => InviteLinkView { expires_at: None, guild_id, ..l },
                Some(e) => match rfc3339_seconds(e@) {
                    None => unresolved(l),
                    Some(t) => InviteLinkView { expires_at: Some(t), guild_id, ..l },
                },
            }
        },
    }
}

/// The answer given for the `i`th link; a missing one counts as a failed lookup.
pub open spec fn answer_at(answers: Seq<Option<DiscordInvite>>, i: int) -> Option<DiscordInvite> {
    if 0 <= i < answers.len() {
        answers[i]
    } else {
        None
    }
}

/// Every link of `links`, enriched with the answer at the same place.
pub open spec fn resolve_all(links: Seq<InviteLinkView>, answers: Seq<Option<DiscordInvite>>) -> Seq<
    InviteLinkView,
> {
    Seq::new(links.len(), |i: int| resolved(links[i], answer_at(answers, i)))
}

impl DiscordInviteLink {
    /// This link with what its lookup answered.
    pub fn with_lookup(&self, answer: &Option<DiscordInvite>) -> (r: DiscordInviteLink)
        ensures
            r@ == resolved(self@, *answer),
    {
        let invite_link = self.invite_link.clone();
        let invite_code = self.invite_code.clone();
        match answer {
            None => DiscordInviteLink { invite_link, invite_code, expires_at: None, guild_id: None },
            Some(a) => {
                let guild_id = match &a.guild {
                    Some(g) => Some(g.id),
                    None => None,
                };
                match &a.expires_at {
                    None => DiscordInviteLink { invite_link, invite_code, expires_at: None, guild_id },
                    Some(e) => match parse_rfc3339(e.as_str()) {
                        None => DiscordInviteLink {
                            invite_link,
                            invite_code,
                            expires_at: None,
                            guild_id: None,
                        },
                        Some(t) => DiscordInviteLink {
                            invite_link,
                            invite_code,
                            expires_at: Some(t),
                            guild_id,
                        },
                    },
                }
            },
        }
    }
}

impl InviteFinder {
    /// The links with their lookup answers, in the same order; the answer at
    /// each place belongs to the link at that place.
    pub fn resolve(&self, answers: &Vec<Option<DiscordInvite>>) -> (r: Vec<DiscordInviteLink>)
        ensures
            link_views(r@) == resolve_all(self@, answers@),
    {
        let mut r: Vec<DiscordInviteLink> = Vec::new();
        let mut i: usize = 0;
        while i < self.invite_codes.len()
            invariant
                i <= self.invite_codes@.len(),
                r@.len() == i,
                forall|j: int|
                    0 <= j < i ==> #[trigger] r@[j]@ == resolved(
                        self.invite_codes@[j]@,
                        answer_at(answers@, j),
                    ),
            decreases self.invite_codes.len() - i,
        {
            let l = if i < answers.len() {
                self.invite_codes[i].with_lookup(&answers[i])
            } else {
                self.invite_codes[i].with_lookup(&None)
            };
            r.push(l);
            i += 1;
        }
        assert(link_views(r@) =~= resolve_all(self@, answers@));
        r
    }
}

/// The total length of the links.
pub open spec fn links_total(links: Seq<InviteLinkView>) -> int
    decreases links.len(),
{
    if links.len() == 0 {
        0
    } else {
        links[0].link.len() + links_total(links.drop_first())
    }
}

/// The links found from `p` on lie inside the text after `p`, none overlapping.
proof fn lemma_links_from_inside(t: Seq<char>, p: int)
    requires
        0 <= p <= t.len(),
    ensures
        0 <= links_total(links_from(t, p).map_values(|span: (int, int, int)| span_view(t, span)))
            <= t.len() - p,
    decreases t.len() - p,
{
    let f = |span: (int, int, int)| span_view(t, span);
    if p < t.len() {
        if link_at(t, p) {
            let e = link_end(t, p);
            lemma_code_run_bound(t, code_start(t, p));
            lemma_links_from_inside(t, e);
            let all = links_from(t, p).map_values(f);
            assert(all.drop_first() =~= links_from(t, e).map_values(f));
        } else {
            lemma_links_from_inside(t, p + 1);
        }
    }
}

/// The invite links of a text are no longer, together, than the text.
pub proof fn lemma_links_inside(t: Seq<char>)
    ensures
        0 <= links_total(extract(t)) <= t.len(),
{
    lemma_links_from_inside(t, 0);
}

#[via_fn]
proof fn links_from_decreases(t: Seq<char>, p: int) {
    if 0 <= p < t.len() && link_at(t, p) {
        assert(host_len(t, p + scheme_len(t, p)) >= 11);
        assert(code_start(t, p) <= t.len());
        lemma_code_run_bound(t, code_start(t, p));
        assert(link_end(t, p) > p);
    }
}

/// A run of code characters stays inside the text.
pub proof fn lemma_code_run_bound(t: Seq<char>, q: int)
    requires
        0 <= q <= t.len(),
    ensures
        q + code_run(t, q) <= t.len(),
    decreases t.len() - q,
{
    if q < t.len() && is_code_char(t[q]) {
        lemma_code_run_bound(t, q + 1);
    }
}

} // verus!
