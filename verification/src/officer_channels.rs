use vstd::prelude::*;

use poise::serenity_prelude::Permissions;

use crate::gambling::{mention, push_mention};
use crate::text::{chars_of, contains_u64, push_chars, push_str, trim_end, trim_end_len, trim_start, trim_start_len};

verus! {

/// Whether a member with these roles is a trial or a raider.
pub fn has_trial_or_raider_role(roles: &Vec<u64>, trial_role: u64, raider_role: u64) -> (b: bool)
    ensures
        b == (roles@.contains(trial_role) || roles@.contains(raider_role)),
{
    let mut i: usize = 0;
    while i < roles.len()
        invariant
            i <= roles.len(),
            forall|j: int| 0 <= j < i ==> roles@[j] != trial_role && roles@[j] != raider_role,
        decreases roles.len() - i,
    {
        if roles[i] == trial_role || roles[i] == raider_role {
            return true;
        }
        i += 1;
    }
    false
}

/// Whether a member whose roles were updated should have a personal officer
/// channel: a trial or a raider who is not an officer.
pub fn wants_personal_channel(roles: &Vec<u64>, trial_role: u64, raider_role: u64, officer_role: u64) -> (b: bool)
    ensures
        b == ((roles@.contains(trial_role) || roles@.contains(raider_role)) && !roles@.contains(officer_role)),
{
    has_trial_or_raider_role(roles, trial_role, raider_role) && !contains_u64(roles, officer_role)
}

/// Whom a permission overwrite applies to.
#[derive(Debug, Clone, Copy, PartialEq, Eq, Structural)]
pub enum OverwriteTarget {
    Member(u64),
    Role(u64),
}

/// What the bot knows of an existing guild channel: its category and whom
/// its permission overwrites apply to.
pub struct ChannelSummary {
    pub parent_id: Option<u64>,
    pub overwrite_targets: Vec<OverwriteTarget>,
}

/// `channel` is the personal officer channel of `user`: it sits in the
/// category and overwrites permissions both for the user and for the officer role.
pub open spec fn is_personal_channel(channel: &ChannelSummary, category: u64, user: u64, officer_role: u64) -> bool {
    &&& channel.parent_id == Some(category)
    &&& channel.overwrite_targets@.contains(OverwriteTarget::Member(user))
    &&& channel.overwrite_targets@.contains(OverwriteTarget::Role(officer_role))
}

fn has_target(targets: &Vec<OverwriteTarget>, t: OverwriteTarget) -> (b: bool)
    ensures
        b == targets@.contains(t),
{
    let mut i: usize = 0;
    while i < targets.len()
        invariant
            i <= targets.len(),
            forall|j: int| 0 <= j < i ==> targets@[j] != t,
        decreases targets.len() - i,
    {
        if targets[i] == t {
            return true;
        }
        i += 1;
    }
    false
}

/// Whether `user` already has a personal officer channel among `channels`.
pub fn already_has_channel(channels: &Vec<ChannelSummary>, category: u64, user: u64, officer_role: u64) -> (b: bool)
    ensures
        b == exists|i: int| 0 <= i < channels@.len() && is_personal_channel(&#[trigger] channels@[i], category, user, officer_role),
{
    let mut i: usize = 0;
    while i < channels.len()
        invariant
            i <= channels.len(),
            forall|j: int| 0 <= j < i ==> !is_personal_channel(&#[trigger] channels@[j], category, user, officer_role),
        decreases channels.len() - i,
    {
        let c = &channels[i];
        let in_category = match c.parent_id {
            Some(p) => p == category,
            None => false,
        };
        if in_category && has_target(&c.overwrite_targets, OverwriteTarget::Member(user)) && has_target(
            &c.overwrite_targets,
            OverwriteTarget::Role(officer_role),
        ) {
            assert(is_personal_channel(&channels@[i as int], category, user, officer_role));
            return true;
        }
        i += 1;
    }
    false
}

/// The bit of the permission to view a channel.
pub open spec fn view_channel() -> u64 {
    1024
}

/// The permissions to view a channel, send messages in it and read its history.
pub open spec fn open_channel() -> u64 {
    1024u64 | 2048u64 | 65536u64
}

/// serenity's `Permissions::VIEW_CHANNEL`. Trusted: its bits are `1 << 10`.
#[verifier::external_body]
fn view_channel_bits() -> (b: u64)
    ensures
        b == 1024,
{
    Permissions::VIEW_CHANNEL.bits()
}

/// serenity's `Permissions::SEND_MESSAGES`. Trusted: its bits are `1 << 11`.
#[verifier::external_body]
fn send_messages_bits() -> (b: u64)
    ensures
        b == 2048,
{
    Permissions::SEND_MESSAGES.bits()
}

/// serenity's `Permissions::READ_MESSAGE_HISTORY`. Trusted: its bits are `1 << 16`.
#[verifier::external_body]
fn read_message_history_bits() -> (b: u64)
    ensures
        b == 65536,
{
    Permissions::READ_MESSAGE_HISTORY.bits()
}

/// A permission overwrite of a channel to be created.
#[derive(Debug, Clone, Copy, PartialEq, Eq, Structural)]
pub struct Overwrite {
    pub target: OverwriteTarget,
    pub allow: u64,
    pub deny: u64,
}

/// The channel to create for a member.
pub struct ChannelPlan {
    pub name: String,
    pub category: u64,
    pub topic: String,
    pub overwrites: Vec<Overwrite>,
}

// ---------------------------------------------------------------------------
// Names and topics
// ---------------------------------------------------------------------------

/// What `str::to_lowercase` makes of `s` (Unicode lower case mapping).
pub uninterp spec fn lowercase(s: Seq<char>) -> Seq<char>;

/// `str::to_lowercase`. Trusted: the result is `lowercase(s)`, and it holds
/// no ASCII capital letter (every character in `A..=Z` has the lower case
/// mapping to `a..=z`, and no lower case mapping yields one).
#[verifier::external_body]
fn to_lowercase(s: &str) -> (res: String)
    ensures
        res@ == lowercase(s@),
        forall|i: int| 0 <= i < res@.len() ==> !('A' <= #[trigger] res@[i] <= 'Z'),
{
    s.to_lowercase()
}

/// Whether `c` is an ASCII letter or digit (`char::is_ascii_alphanumeric`).
pub open spec fn is_ascii_alnum(c: char) -> bool {
    ('0' <= c <= '9') || ('a' <= c <= 'z') || ('A' <= c <= 'Z')
}

/// Whether `c` is an ASCII lower case letter or digit.
pub open spec fn is_lower_alnum(c: char) -> bool {
    ('0' <= c <= '9') || ('a' <= c <= 'z')
}

/// `c` kept when it is an ASCII letter or digit, and `-` otherwise.
pub open spec fn sanitize_char(c: char) -> char {
    if is_ascii_alnum(c) { c } else { '-' }
}

/// The name of the personal channel of a member shown as `display`: the name
/// in lower case, every character but ASCII letters and digits turned into
/// `-`, leading and trailing `-` removed; "member" when nothing is left.
pub open spec fn channel_name_spec(display: Seq<char>) -> Seq<char> {
    let sanitized = lowercase(display).map_values(|c: char| sanitize_char(c));
    let trimmed = trim_start(trim_end(sanitized, '-'), '-');
    if trimmed.len() == 0 { "member"@ } else { trimmed }
}

proof fn lemma_trim_end_prefix(s: Seq<char>, c: char)
    ensures
        trim_end(s, c).len() <= s.len(),
        trim_end(s, c) == s.take(trim_end(s, c).len() as int),
        trim_end(s, c).len() > 0 ==> trim_end(s, c).last() != c,
    decreases s.len(),
{
    if s.len() > 0 && s.last() == c {
        lemma_trim_end_prefix(s.drop_last(), c);
        let t = trim_end(s.drop_last(), c);
        assert(s.drop_last().take(t.len() as int) =~= s.take(t.len() as int));
    } else {
        assert(s.take(s.len() as int) =~= s);
    }
}

proof fn lemma_trim_start_suffix(s: Seq<char>, c: char)
    ensures
        trim_start(s, c).len() <= s.len(),
        trim_start(s, c) == s.skip(s.len() - trim_start(s, c).len()),
        trim_start(s, c).len() > 0 ==> trim_start(s, c)[0] != c,
    decreases s.len(),
{
    if s.len() > 0 && s[0] == c {
        lemma_trim_start_suffix(s.drop_first(), c);
        let t = trim_start(s.drop_first(), c);
        assert(s.drop_first().skip(s.drop_first().len() - t.len()) =~= s.skip(s.len() - t.len()));
    } else {
        assert(s.skip(0) =~= s);
    }
}

proof fn lemma_trim_end_removes_only(s: Seq<char>, c: char)
    ensures
        forall|i: int| trim_end(s, c).len() <= i < s.len() ==> s[i] == c,
    decreases s.len(),
{
    if s.len() > 0 && s.last() == c {
        lemma_trim_end_removes_only(s.drop_last(), c);
        assert forall|i: int| trim_end(s, c).len() <= i < s.len() implies s[i] == c by {
            if i < s.len() - 1 {
                assert(s.drop_last()[i] == s[i]);
            }
        }
    }
}

proof fn lemma_trim_start_removes_only(s: Seq<char>, c: char)
    ensures
        forall|i: int| 0 <= i < s.len() - trim_start(s, c).len() ==> s[i] == c,
    decreases s.len(),
{
    if s.len() > 0 && s[0] == c {
        lemma_trim_start_removes_only(s.drop_first(), c);
        assert forall|i: int| 0 <= i < s.len() - trim_start(s, c).len() implies s[i] == c by {
            if i > 0 {
                assert(s.drop_first()[i - 1] == s[i]);
            }
        }
    }
}

/// Law: the channel name keeps every character of the lower-cased,
/// sanitized display name but the leading and trailing `-`: when that text
/// holds anything but `-`, the name is the stretch of it from its first to
/// its last character other than `-`, with only `-` before and after that
/// stretch (so no letter or digit is dropped and nothing is cut); when it
/// holds only `-` (or nothing), the name is "member".
pub proof fn law_channel_name_trims_only_dashes(display: Seq<char>)
    ensures
        ({
            let s = lowercase(display).map_values(|c: char| sanitize_char(c));
            let name = channel_name_spec(display);
            &&& (forall|i: int| 0 <= i < s.len() ==> s[i] == '-') ==> name == "member"@
            &&& (exists|i: int| 0 <= i < s.len() && s[i] != '-') ==> exists|a: int, b: int|
                {
                    &&& 0 <= a < b <= s.len()
                    &&& name == s.subrange(a, b)
                    &&& s[a] != '-'
                    &&& s[b - 1] != '-'
                    &&& forall|i: int| 0 <= i < a ==> s[i] == '-'
                    &&& forall|i: int| b <= i < s.len() ==> s[i] == '-'
                }
        }),
{
    let s = lowercase(display).map_values(|c: char| sanitize_char(c));
    let te = trim_end(s, '-');
    let t = trim_start(te, '-');
    lemma_trim_end_prefix(s, '-');
    lemma_trim_start_suffix(te, '-');
    lemma_trim_end_removes_only(s, '-');
    lemma_trim_start_removes_only(te, '-');
    let b = te.len() as int;
    let a = b - t.len();
    assert(t =~= s.subrange(a, b));
    assert forall|i: int| 0 <= i < a implies s[i] == '-' by {
        assert(te[i] == s[i]);
    }
    if t.len() > 0 {
        assert(t[0] == s[a]);
        assert(t.last() == te.last());
        assert(te.last() == s[b - 1]);
    } else {
        assert forall|i: int| 0 <= i < s.len() implies s[i] == '-' by {
            if i >= b {
            } else {
                assert(i < a);
            }
        }
    }
}

/// The name of the personal channel of a member shown as `display` (their
/// nickname, or else their user name).
///
/// The name holds only ASCII lower case letters, digits and `-`, is never
/// empty, and neither starts nor ends with `-`.
pub fn channel_name_for(display: &str) -> (name: String)
    ensures
        name@ == channel_name_spec(display@),
        name@.len() > 0,
        name@[0] != '-',
        name@.last() != '-',
        forall|i: int| 0 <= i < name@.len() ==> is_lower_alnum(#[trigger] name@[i]) || name@[i] == '-',
        ({
            let s = lowercase(display@).map_values(|c: char| sanitize_char(c));
            &&& (forall|i: int| 0 <= i < s.len() ==> s[i] == '-') ==> name@ == "member"@
            &&& (exists|i: int| 0 <= i < s.len() && s[i] != '-') ==> exists|a: int, b: int|
                {
                    &&& 0 <= a < b <= s.len()
                    &&& name@ == s.subrange(a, b)
                    &&& forall|i: int| 0 <= i < a ==> s[i] == '-'
                    &&& forall|i: int| b <= i < s.len() ==> s[i] == '-'
                }
        }),
{
    proof {
        law_channel_name_trims_only_dashes(display@);
    }
    let lower = to_lowercase(display);
    let chars = chars_of(lower.as_str());
    let mut sanitized: Vec<char> = Vec::new();
    let mut i: usize = 0;
    while i < chars.len()
        invariant
            i <= chars.len(),
            sanitized@ == chars@.take(i as int).map_values(|c: char| sanitize_char(c)),
        decreases chars.len() - i,
    {
        let c = chars[i];
        let d = if ('0' <= c && c <= '9') || ('a' <= c && c <= 'z') || ('A' <= c && c <= 'Z') { c } else { '-' };
        sanitized.push(d);
        assert(chars@.take(i + 1).map_values(|c: char| sanitize_char(c)) =~= chars@.take(i as int).map_values(
            |c: char| sanitize_char(c),
        ).push(d));
        i += 1;
    }
    assert(chars@.take(chars.len() as int) =~= chars@);
    let ghost s = sanitized@;
    let end = trim_end_len(&sanitized, '-');
    let mut head: Vec<char> = Vec::new();
    let mut k: usize = 0;
    while k < end
        invariant
            end <= sanitized.len(),
            k <= end,
            head@ == sanitized@.take(k as int),
        decreases end - k,
    {
        head.push(sanitized[k]);
        assert(sanitized@.take(k + 1) =~= sanitized@.take(k as int).push(sanitized@[k as int]));
        k += 1;
    }
    let start = trim_start_len(&head, '-');
    proof {
        lemma_trim_end_prefix(s, '-');
        lemma_trim_start_suffix(trim_end(s, '-'), '-');
    }
    let ghost t = trim_start(trim_end(s, '-'), '-');
    assert(head@.skip(start as int) == t);
    assert forall|j: int| 0 <= j < t.len() implies is_ascii_alnum(#[trigger] t[j]) || t[j] == '-' by {
        let te = trim_end(s, '-');
        assert(t[j] == te[te.len() - t.len() + j]);
        assert(te[te.len() - t.len() + j] == s[te.len() - t.len() + j]);
    }
    if start == head.len() {
        let mut name = String::new();
        push_str(&mut name, "member");
        proof {
            reveal_strlit("member");
        }
        return name;
    }
    proof {
        let te = trim_end(s, '-');
        assert(t.last() == te.last());
    }
    let mut name = String::new();
    push_chars(&mut name, &head, start, head.len());
    assert(head@.subrange(start as int, head@.len() as int) =~= head@.skip(start as int));
    name
}

/// The marker that identifies the personal channel of `user` in its topic.
pub open spec fn topic_marker(user: u64) -> Seq<char> {
    "Personal officer channel for "@ + mention(user)
}

/// The marker that identifies the personal channel of `user`:
/// "Personal officer channel for <@user>".
pub fn topic_marker_for(user: u64) -> (s: String)
    ensures
        s@ == topic_marker(user),
{
    let mut s = String::new();
    push_str(&mut s, "Personal officer channel for ");
    push_mention(&mut s, user);
    s
}

/// What the bot knows of the member whose roles changed.
pub struct MemberInfo {
    pub user_id: u64,
    pub user_name: String,
    pub nick: Option<String>,
    pub roles: Vec<u64>,
}

/// The name a member is shown by: their nickname, or else their user name.
pub open spec fn display_name(m: &MemberInfo) -> Seq<char> {
    match m.nick {
        Some(n) => n@,
        None => m.user_name@,
    }
}

/// The overwrites of a personal channel: hidden from everyone, open to the
/// officers and to the member (view, send, read history).
pub open spec fn personal_overwrites(everyone_role: u64, officer_role: u64, user: u64) -> Seq<Overwrite> {
    let open = open_channel();
    seq![
        Overwrite { target: OverwriteTarget::Role(everyone_role), allow: 0, deny: view_channel() },
        Overwrite { target: OverwriteTarget::Role(officer_role), allow: open, deny: 0 },
        Overwrite { target: OverwriteTarget::Member(user), allow: open, deny: 0 },
    ]
}

/// Decides, once the guild's channels are known, whether to create a personal
/// officer channel for `member`, and how: `None` when they already have one;
/// otherwise a private text channel in the category, named after them, whose
/// topic carries their marker, visible only to them and the officers.
pub fn plan_personal_channel(
    member: &MemberInfo,
    channels: &Vec<ChannelSummary>,
    category: u64,
    officer_role: u64,
    everyone_role: u64,
) -> (plan: Option<ChannelPlan>)
    ensures
        (exists|i: int| 0 <= i < channels@.len() && is_personal_channel(&#[trigger] channels@[i], category, member.user_id, officer_role))
            <==> plan is None,
        plan matches Some(p) ==> {
            &&& p.name@ == channel_name_spec(display_name(member))
            &&& p.category == category
            &&& p.topic@ == topic_marker(member.user_id) + " \u{2014} visible only to them and officers."@
            &&& p.overwrites@ == personal_overwrites(everyone_role, officer_role, member.user_id)
        },
{
    if already_has_channel(channels, category, member.user_id, officer_role) {
        return None;
    }
    let name = match &member.nick {
        Some(n) => channel_name_for(n.as_str()),
        None => channel_name_for(member.user_name.as_str()),
    };
    let mut topic = topic_marker_for(member.user_id);
    push_str(&mut topic, " \u{2014} visible only to them and officers.");
    let view = view_channel_bits();
    let open = view | send_messages_bits() | read_message_history_bits();
    assert(open == open_channel()) by (bit_vector)
        requires
            open == view | 2048u64 | 65536u64,
            view == 1024u64,
    ;
    let mut overwrites: Vec<Overwrite> = Vec::new();
    overwrites.push(Overwrite { target: OverwriteTarget::Role(everyone_role), allow: 0, deny: view });
    overwrites.push(Overwrite { target: OverwriteTarget::Role(officer_role), allow: open, deny: 0 });
    overwrites.push(Overwrite { target: OverwriteTarget::Member(member.user_id), allow: open, deny: 0 });
    assert(overwrites@ =~= personal_overwrites(everyone_role, officer_role, member.user_id));
    Some(ChannelPlan { name, category, topic, overwrites })
}


/// Law: a channel created as planned for a member is recognized as their
/// personal channel, so a later role update plans nothing more for them.
pub proof fn law_planned_channel_is_recognized(
    member: &MemberInfo,
    category: u64,
    officer_role: u64,
    everyone_role: u64,
    created: ChannelSummary,
)
    requires
        created.parent_id == Some(category),
        created.overwrite_targets@ == personal_overwrites(everyone_role, officer_role, member.user_id).map_values(
            |o: Overwrite| o.target,
        ),
    ensures
        is_personal_channel(&created, category, member.user_id, officer_role),
{
    let t = created.overwrite_targets@;
    assert(t[2] == OverwriteTarget::Member(member.user_id));
    assert(t[1] == OverwriteTarget::Role(officer_role));
}

} // verus!
