use vstd::prelude::*;

use tracing_subscriber::filter::LevelFilter;

use crate::text::{chars_of, push_str, string_of};

verus! {

// ---------------------------------------------------------------------------
// Numbers
// ---------------------------------------------------------------------------

/// Whether every character of `s` is an ASCII digit.
pub open spec fn all_digits(s: Seq<char>) -> bool {
    forall|i: int| 0 <= i < s.len() ==> '0' <= #[trigger] s[i] <= '9'
}

/// The number that the decimal digits `s` denote.
pub open spec fn digits_value(s: Seq<char>) -> nat
    decreases s.len(),
{
    if s.len() == 0 {
        0
    } else {
        digits_value(s.drop_last()) * 10 + ((s.last() as nat) - ('0' as nat)) as nat
    }
}

/// What `str::parse::<u64>` makes of `s`: an optional `+` followed by at least
/// one ASCII digit, denoting a number that fits in `u64`.
pub open spec fn u64_of(s: Seq<char>) -> Option<u64> {
    let d = if s.len() > 0 && s[0] == '+' { s.drop_first() } else { s };
    if d.len() > 0 && all_digits(d) && digits_value(d) <= u64::MAX {
        Some(digits_value(d) as u64)
    } else {
        None
    }
}

/// Parses a decimal `u64` as `str::parse::<u64>` does.
pub fn parse_u64(s: &Vec<char>) -> (res: Option<u64>)
    ensures
        res == u64_of(s@),
{
    let mut start: usize = 0;
    if s.len() > 0 && s[0] == '+' {
        start = 1;
    }
    let ghost d = if s@.len() > 0 && s@[0] == '+' { s@.drop_first() } else { s@ };
    assert(d =~= s@.skip(start as int));
    if start == s.len() {
        return None;
    }
    let mut value: u64 = 0;
    let mut i: usize = start;
    while i < s.len()
        invariant
            start <= i <= s.len(),
            d == s@.skip(start as int),
            d == (if s@.len() > 0 && s@[0] == '+' { s@.drop_first() } else { s@ }),
            d.len() > 0,
            all_digits(s@.subrange(start as int, i as int)),
            value as nat == digits_value(s@.subrange(start as int, i as int)),
        decreases s.len() - i,
    {
        let c = s[i];
        let ghost prefix = s@.subrange(start as int, i as int);
        let ghost next = s@.subrange(start as int, i + 1);
        assert(next.drop_last() =~= prefix);
        if c < '0' || c > '9' {
            assert(d[i - start] == c);
            assert(!('0' <= d[i - start] <= '9'));
            return None;
        }
        let digit = (c as u32 - '0' as u32) as u64;
        assert(digits_value(next) == digits_value(prefix) * 10 + digit);
        if value > (u64::MAX - digit) / 10 {
            proof {
                assert(d.subrange(0, (i + 1 - start) as int) =~= next);
                if all_digits(d) {
                    lemma_digits_value_prefix_le(d, (i + 1 - start) as int);
                }
                assert(value * 10 + digit > u64::MAX) by (nonlinear_arith)
                    requires
                        value > (u64::MAX - digit) / 10,
                        digit <= 9,
                ;
            }
            return None;
        }
        assert(value * 10 + digit <= u64::MAX) by (nonlinear_arith)
            requires
                value <= (u64::MAX - digit) / 10,
                digit <= 9,
        ;
        value = value * 10 + digit;
        assert forall|k: int| 0 <= k < next.len() implies '0' <= #[trigger] next[k] <= '9' by {
            if k < prefix.len() {
                assert(next[k] == prefix[k]);
            }
        }
        i += 1;
    }
    assert(s@.subrange(start as int, s.len() as int) =~= d);
    Some(value)
}

/// The value of a prefix of a string of digits is at most that of the whole.
proof fn lemma_digits_value_prefix_le(d: Seq<char>, n: int)
    requires
        0 <= n <= d.len(),
        all_digits(d),
    ensures
        digits_value(d.subrange(0, n)) <= digits_value(d),
    decreases d.len() - n,
{
    if n < d.len() {
        lemma_digits_value_prefix_le(d, n + 1);
        let a = d.subrange(0, n);
        let b = d.subrange(0, n + 1);
        assert(b.drop_last() =~= a);
        assert('0' <= b.last());
        assert(digits_value(b) == digits_value(a) * 10 + ((b.last() as nat) - ('0' as nat)) as nat);
        assert(digits_value(a) <= digits_value(b)) by (nonlinear_arith)
            requires
                digits_value(b) == digits_value(a) * 10 + ((b.last() as nat) - ('0' as nat)) as nat,
        ;
    } else {
        assert(d.subrange(0, n) =~= d);
    }
}

/// A Discord identifier: a `u64` (as `str::parse::<u64>` reads it) that is
/// not 0, since serenity refuses the identifier 0.
pub open spec fn discord_id_of(s: Seq<char>) -> Option<u64> {
    match u64_of(s) {
        Some(x) => if x != 0 { Some(x) } else { None },
        None => None,
    }
}

/// Parses a Discord identifier (see `discord_id_of`).
pub fn parse_discord_id(s: &Vec<char>) -> (res: Option<u64>)
    ensures
        res == discord_id_of(s@),
{
    match parse_u64(s) {
        Some(x) => if x != 0 { Some(x) } else { None },
        None => None,
    }
}

// ---------------------------------------------------------------------------
// Whitespace and lists
// ---------------------------------------------------------------------------

/// Whether `c` has the Unicode `White_Space` property, which is what
/// `char::is_whitespace` tests: the ASCII tab, line feed, vertical tab, form
/// feed, carriage return and space, NEXT LINE, NO-BREAK SPACE, OGHAM SPACE
/// MARK, the spaces from EN QUAD to HAIR SPACE, the LINE and PARAGRAPH
/// SEPARATORs, NARROW NO-BREAK SPACE, MEDIUM MATHEMATICAL SPACE and
/// IDEOGRAPHIC SPACE.
pub open spec fn unicode_whitespace(c: char) -> bool {
    ||| '\u{9}' <= c <= '\u{d}'
    ||| c == ' '
    ||| c == '\u{85}'
    ||| c == '\u{a0}'
    ||| c == '\u{1680}'
    ||| '\u{2000}' <= c <= '\u{200a}'
    ||| c == '\u{2028}'
    ||| c == '\u{2029}'
    ||| c == '\u{202f}'
    ||| c == '\u{205f}'
    ||| c == '\u{3000}'
}

/// Whether `c` is whitespace (`char::is_whitespace`).
pub fn is_whitespace(c: char) -> (b: bool)
    ensures
        b == unicode_whitespace(c),
{
    ('\u{9}' <= c && c <= '\u{d}') || c == ' ' || c == '\u{85}' || c == '\u{a0}' || c == '\u{1680}' || ('\u{2000}' <= c
        && c <= '\u{200a}') || c == '\u{2028}' || c == '\u{2029}' || c == '\u{202f}' || c == '\u{205f}' || c == '\u{3000}'
}

/// `s` without leading and trailing whitespace (`str::trim`).
pub open spec fn trimmed(s: Seq<char>) -> Seq<char>
    decreases s.len(),
{
    if s.len() > 0 && unicode_whitespace(s[0]) {
        trimmed(s.drop_first())
    } else if s.len() > 0 && unicode_whitespace(s.last()) {
        trimmed(s.drop_last())
    } else {
        s
    }
}

/// `s[from..to]` without leading and trailing whitespace.
pub fn trim_range(s: &Vec<char>, from: usize, to: usize) -> (res: Vec<char>)
    requires
        from <= to <= s.len(),
    ensures
        res@ == trimmed(s@.subrange(from as int, to as int)),
{
    let mut a = from;
    let mut b = to;
    while a < b && (is_whitespace(s[a]) || is_whitespace(s[b - 1]))
        invariant
            from <= a <= b <= to <= s.len(),
            trimmed(s@.subrange(a as int, b as int)) == trimmed(s@.subrange(from as int, to as int)),
        decreases b - a,
    {
        let ghost cur = s@.subrange(a as int, b as int);
        if is_whitespace(s[a]) {
            assert(cur.drop_first() =~= s@.subrange(a + 1, b as int));
            a += 1;
        } else {
            assert(cur.drop_last() =~= s@.subrange(a as int, b - 1));
            b -= 1;
        }
    }
    let mut res: Vec<char> = Vec::new();
    let mut k = a;
    while k < b
        invariant
            a <= k <= b <= s.len(),
            res@ == s@.subrange(a as int, k as int),
        decreases b - k,
    {
        res.push(s[k]);
        assert(s@.subrange(a as int, k + 1) =~= s@.subrange(a as int, k as int).push(s@[k as int]));
        k += 1;
    }
    res
}

/// The pieces of `s` between the occurrences of `sep` (`str::split` by a
/// character): one more piece than there are separators, empty pieces included.
pub open spec fn split_on(s: Seq<char>, sep: char) -> Seq<Seq<char>>
    decreases s.len(),
{
    if s.len() == 0 {
        seq![Seq::<char>::empty()]
    } else {
        let prev = split_on(s.drop_last(), sep);
        if s.last() == sep {
            prev.push(Seq::empty())
        } else {
            prev.update(prev.len() - 1, prev.last().push(s.last()))
        }
    }
}

proof fn lemma_split_on_nonempty(s: Seq<char>, sep: char)
    ensures
        split_on(s, sep).len() >= 1,
    decreases s.len(),
{
    if s.len() > 0 {
        lemma_split_on_nonempty(s.drop_last(), sep);
    }
}


/// The abstract value of a list of character vectors.
pub open spec fn pieces_view(v: Seq<Vec<char>>) -> Seq<Seq<char>> {
    v.map_values(|p: Vec<char>| p@)
}

/// Splits `s` at every occurrence of `sep` (`str::split`).
pub fn split_pieces(s: &str, sep: char) -> (res: Vec<Vec<char>>)
    ensures
        pieces_view(res@) == split_on(s@, sep),
{
    let v = chars_of(s);
    let mut done: Vec<Vec<char>> = Vec::new();
    let mut cur: Vec<char> = Vec::new();
    let mut i: usize = 0;
    while i < v.len()
        invariant
            i <= v.len(),
            pieces_view(done@).push(cur@) == split_on(v@.take(i as int), sep),
        decreases v.len() - i,
    {
        assert(v@.take(i + 1).drop_last() =~= v@.take(i as int));
        let c = v[i];
        if c == sep {
            let ghost before = done@;
            done.push(cur);
            cur = Vec::new();
            assert(pieces_view(done@) =~= pieces_view(before).push(done@.last()@));
            assert(pieces_view(done@).push(cur@) =~= split_on(v@.take(i + 1), sep));
        } else {
            let ghost before = cur@;
            cur.push(c);
            assert(pieces_view(done@).push(cur@) =~= pieces_view(done@).push(before).update(
                done@.len() as int, before.push(c)));
        }
        i += 1;
    }
    assert(v@.take(v.len() as int) =~= v@);
    done.push(cur);
    assert(pieces_view(done@) =~= split_on(s@, sep));
    done
}


/// The identifiers listed in `pieces`: empty pieces are skipped, every other
/// piece must be a Discord identifier once trimmed (else `None`), and each
/// identifier is kept once, where it first appears.
pub open spec fn ids_of(pieces: Seq<Seq<char>>) -> Option<Seq<u64>>
    decreases pieces.len(),
{
    if pieces.len() == 0 {
        Some(Seq::empty())
    } else {
        match ids_of(pieces.drop_last()) {
            None => None,
            Some(v) => if pieces.last().len() == 0 {
                Some(v)
            } else {
                match discord_id_of(trimmed(pieces.last())) {
                    None => None,
                    Some(x) => Some(if v.contains(x) { v } else { v.push(x) }),
                }
            },
        }
    }
}

/// Parses a comma-separated list of identifiers (such as `CLIPS_CHANNEL_IDS`):
/// `ids_of` the pieces of `s` between commas.
pub fn parse_id_list(s: &str) -> (res: Option<Vec<u64>>)
    ensures
        match ids_of(split_on(s@, ',')) {
            None => res is None,
            Some(v) => res matches Some(r) && r@ == v,
        },
{
    let pieces = split_pieces(s, ',');
    let mut ids: Vec<u64> = Vec::new();
    let mut i: usize = 0;
    while i < pieces.len()
        invariant
            i <= pieces.len(),
            pieces_view(pieces@) == split_on(s@, ','),
            ids_of(pieces_view(pieces@).take(i as int)) == Some(ids@),
        decreases pieces.len() - i,
    {
        assert(pieces_view(pieces@).take(i + 1).drop_last() =~= pieces_view(pieces@).take(i as int));
        assert(pieces_view(pieces@).take(i + 1).last() == pieces@[i as int]@);
        let piece = &pieces[i];
        if piece.len() > 0 {
            let t = trim_range(piece, 0, piece.len());
            assert(piece@.subrange(0, piece@.len() as int) =~= piece@);
            match parse_discord_id(&t) {
                None => {
                    assert(ids_of(pieces_view(pieces@).take(i + 1)) is None);
                    proof {
                        lemma_ids_of_none_prefix(pieces_view(pieces@), i + 1);
                    }
                    assert(pieces_view(pieces@).take(pieces@.len() as int) =~= pieces_view(pieces@));
                    return None;
                },
                Some(x) => {
                    let mut found = false;
                    let mut k: usize = 0;
                    while k < ids.len()
                        invariant
                            k <= ids.len(),
                            found == exists|j: int| 0 <= j < k && ids@[j] == x,
                        decreases ids.len() - k,
                    {
                        if ids[k] == x {
                            found = true;
                        }
                        k += 1;
                    }
                    if !found {
                        ids.push(x);
                    }
                },
            }
        }
        i += 1;
    }
    assert(pieces_view(pieces@).take(pieces@.len() as int) =~= pieces_view(pieces@));
    Some(ids)
}

/// Once a prefix of the pieces holds a bad identifier, so does every longer prefix.
proof fn lemma_ids_of_none_prefix(pieces: Seq<Seq<char>>, n: int)
    requires
        0 <= n <= pieces.len(),
        ids_of(pieces.take(n)) is None,
    ensures
        ids_of(pieces) is None,
    decreases pieces.len() - n,
{
    if n < pieces.len() {
        assert(pieces.take(n + 1).drop_last() =~= pieces.take(n));
        lemma_ids_of_none_prefix(pieces, n + 1);
    } else {
        assert(pieces.take(n) =~= pieces);
    }
}

/// The names listed in `pieces`: each piece trimmed, empty ones skipped.
pub open spec fn names_of(pieces: Seq<Seq<char>>) -> Seq<Seq<char>>
    decreases pieces.len(),
{
    if pieces.len() == 0 {
        Seq::empty()
    } else {
        let prev = names_of(pieces.drop_last());
        let t = trimmed(pieces.last());
        if t.len() == 0 { prev } else { prev.push(t) }
    }
}

/// The abstract value of a list of strings.
pub open spec fn strings_view(v: Seq<String>) -> Seq<Seq<char>> {
    v.map_values(|s: String| s@)
}

/// Parses a comma-separated list of names (such as `TWITTER_USER_IDS`).
pub fn parse_name_list(s: &str) -> (res: Vec<String>)
    ensures
        strings_view(res@) == names_of(split_on(s@, ',')),
{
    let pieces = split_pieces(s, ',');
    let mut names: Vec<String> = Vec::new();
    let mut i: usize = 0;
    while i < pieces.len()
        invariant
            i <= pieces.len(),
            pieces_view(pieces@) == split_on(s@, ','),
            strings_view(names@) == names_of(pieces_view(pieces@).take(i as int)),
        decreases pieces.len() - i,
    {
        assert(pieces_view(pieces@).take(i + 1).drop_last() =~= pieces_view(pieces@).take(i as int));
        assert(pieces_view(pieces@).take(i + 1).last() == pieces@[i as int]@);
        let piece = &pieces[i];
        let t = trim_range(piece, 0, piece.len());
        assert(piece@.subrange(0, piece@.len() as int) =~= piece@);
        if t.len() > 0 {
            let ghost before = names@;
            names.push(string_of(&t));
            assert(strings_view(names@) =~= strings_view(before).push(t@));
        }
        i += 1;
    }
    assert(pieces_view(pieces@).take(pieces@.len() as int) =~= pieces_view(pieces@));
    names
}

// ---------------------------------------------------------------------------
// Log level
// ---------------------------------------------------------------------------

/// The most verbose kind of log record that is kept.
#[derive(Debug, Clone, Copy, PartialEq, Eq, Structural)]
pub enum LogLevel {
    Off,
    Error,
    Warn,
    Info,
    Debug,
    Trace,
}

/// `c` in ASCII lower case.
pub open spec fn ascii_lower(c: char) -> char {
    if 'A' <= c <= 'Z' { ((c as u32) + 32) as char } else { c }
}

/// `str::eq_ignore_ascii_case`.
pub open spec fn eq_ignore_ascii_case(a: Seq<char>, b: Seq<char>) -> bool {
    a.len() == b.len() && forall|i: int| 0 <= i < a.len() ==> ascii_lower(#[trigger] a[i]) == ascii_lower(b[i])
}

/// What `tracing`'s `LevelFilter::from_str` makes of `s`: a number from 0
/// (off) to 5 (trace), the empty string (error), or a level name in any ASCII
/// case ("off", "error", "warn", "info", "debug", "trace").
pub open spec fn level_of(s: Seq<char>) -> Option<LogLevel> {
    match u64_of(s) {
        Some(0) => Some(LogLevel::Off),
        Some(1) => Some(LogLevel::Error),
        Some(2) => Some(LogLevel::Warn),
        Some(3) => Some(LogLevel::Info),
        Some(4) => Some(LogLevel::Debug),
        Some(5) => Some(LogLevel::Trace),
        _ => if s.len() == 0 {
            Some(LogLevel::Error)
        } else if eq_ignore_ascii_case(s, seq!['e', 'r', 'r', 'o', 'r']) {
            Some(LogLevel::Error)
        } else if eq_ignore_ascii_case(s, seq!['w', 'a', 'r', 'n']) {
            Some(LogLevel::Warn)
        } else if eq_ignore_ascii_case(s, seq!['i', 'n', 'f', 'o']) {
            Some(LogLevel::Info)
        } else if eq_ignore_ascii_case(s, seq!['d', 'e', 'b', 'u', 'g']) {
            Some(LogLevel::Debug)
        } else if eq_ignore_ascii_case(s, seq!['t', 'r', 'a', 'c', 'e']) {
            Some(LogLevel::Trace)
        } else if eq_ignore_ascii_case(s, seq!['o', 'f', 'f']) {
            Some(LogLevel::Off)
        } else {
            None
        },
    }
}

/// Parses a log level with `str::parse::<tracing_subscriber::filter::LevelFilter>`.
/// Trusted: the result is `level_of(s)`, as tracing-core's `FromStr` impl reads.
#[verifier::external_body]
fn parse_level_filter(s: &str) -> (res: Option<LogLevel>)
    ensures
        res == level_of(s@),
{
    match s.parse::<LevelFilter>() {
        Ok(LevelFilter::OFF) => Some(LogLevel::Off),
        Ok(LevelFilter::ERROR) => Some(LogLevel::Error),
        Ok(LevelFilter::WARN) => Some(LogLevel::Warn),
        Ok(LevelFilter::INFO) => Some(LogLevel::Info),
        Ok(LevelFilter::DEBUG) => Some(LogLevel::Debug),
        Ok(_) => Some(LogLevel::Trace),
        Err(_) => None,
    }
}


// ---------------------------------------------------------------------------
// The configuration
// ---------------------------------------------------------------------------

/// The environment variables the bot reads, as found (`None` when unset).
pub struct EnvVars {
    pub discord_token: Option<String>,
    pub wow_audit_token: Option<String>,
    pub bot_name: Option<String>,
    pub mod_role_id: Option<String>,
    pub raider_role_id: Option<String>,
    pub bart_token: Option<String>,
    pub clips_channel_ids: Option<String>,
    pub log_level: Option<String>,
    pub nitter_base_url: Option<String>,
    pub x_base_url: Option<String>,
    pub twitter_user_ids: Option<String>,
    pub tweet_channel_id: Option<String>,
    pub tweet_poll_time: Option<String>,
}

/// An environment variable that the configuration depends on.
#[derive(Debug, Clone, Copy, PartialEq, Eq, Structural)]
pub enum EnvVar {
    DiscordToken,
    WowAuditToken,
    ModRoleId,
    RaiderRoleId,
    ClipsChannelIds,
    LogLevel,
    TweetChannelId,
    TweetPollTime,
}

impl EnvVar {
    /// The name of the variable in the environment.
    pub fn name(&self) -> (s: &'static str)
        ensures
            s@ == match self {
                EnvVar::DiscordToken => "DISCORD_TOKEN"@,
                EnvVar::WowAuditToken => "WOWAUDIT_TOKEN"@,
                EnvVar::ModRoleId => "MOD_ROLE_ID"@,
                EnvVar::RaiderRoleId => "RAIDER_ROLE_ID"@,
                EnvVar::ClipsChannelIds => "CLIPS_CHANNEL_IDS"@,
                EnvVar::LogLevel => "LOG_LEVEL"@,
                EnvVar::TweetChannelId => "TWEET_CHANNEL_ID"@,
                EnvVar::TweetPollTime => "TWEET_POLL_TIME"@,
            },
    {
        match self {
            EnvVar::DiscordToken => "DISCORD_TOKEN",
            EnvVar::WowAuditToken => "WOWAUDIT_TOKEN",
            EnvVar::ModRoleId => "MOD_ROLE_ID",
            EnvVar::RaiderRoleId => "RAIDER_ROLE_ID",
            EnvVar::ClipsChannelIds => "CLIPS_CHANNEL_IDS",
            EnvVar::LogLevel => "LOG_LEVEL",
            EnvVar::TweetChannelId => "TWEET_CHANNEL_ID",
            EnvVar::TweetPollTime => "TWEET_POLL_TIME",
        }
    }
}

/// Why the configuration could not be built.
#[derive(Debug, Clone, Copy, PartialEq, Eq, Structural)]
pub enum ConfigError {
    /// A required variable is not set.
    Missing(EnvVar),
    /// A variable is set to something that cannot be parsed.
    Invalid(EnvVar),
}

/// The bot's configuration.
pub struct Config {
    pub discord_token: String,
    pub wow_audit_token: String,
    pub bot_name: String,
    pub mod_role_id: u64,
    pub raider_role_id: u64,
    pub bart_token: String,
    pub clips_channel_ids: Vec<u64>,
    pub log_level: LogLevel,
    pub nitter_base_url: Option<String>,
    pub x_base_url: String,
    pub twitter_user_ids: Vec<String>,
    pub tweet_target_channel_id: Option<u64>,
    pub tweet_poll_time: Option<u64>,
}

/// The value of an optional variable, or its default.
pub open spec fn or_default(v: Option<String>, default: Seq<char>) -> Seq<char> {
    match v {
        Some(s) => s@,
        None => default,
    }
}

/// A positive number (as `str::parse::<u64>` reads it).
pub open spec fn positive_u64_of(s: Seq<char>) -> Option<u64> {
    discord_id_of(s)
}

/// The first thing wrong with the variables, checked in the order the
/// configuration reads them, or `None` when nothing is.
pub open spec fn first_error(v: &EnvVars) -> Option<ConfigError> {
    if v.discord_token is None {
        Some(ConfigError::Missing(EnvVar::DiscordToken))
    } else if v.wow_audit_token is None {
        Some(ConfigError::Missing(EnvVar::WowAuditToken))
    } else if v.mod_role_id is None {
        Some(ConfigError::Missing(EnvVar::ModRoleId))
    } else if discord_id_of(v.mod_role_id.unwrap()@) is None {
        Some(ConfigError::Invalid(EnvVar::ModRoleId))
    } else if v.raider_role_id is None {
        Some(ConfigError::Missing(EnvVar::RaiderRoleId))
    } else if discord_id_of(v.raider_role_id.unwrap()@) is None {
        Some(ConfigError::Invalid(EnvVar::RaiderRoleId))
    } else if ids_of(split_on(or_default(v.clips_channel_ids, ""@), ',')) is None {
        Some(ConfigError::Invalid(EnvVar::ClipsChannelIds))
    } else if level_of(or_default(v.log_level, "INFO"@)) is None {
        Some(ConfigError::Invalid(EnvVar::LogLevel))
    } else if v.tweet_channel_id matches Some(c) && discord_id_of(c@) is None {
        Some(ConfigError::Invalid(EnvVar::TweetChannelId))
    } else if v.tweet_poll_time matches Some(t) && positive_u64_of(t@) is None {
        Some(ConfigError::Invalid(EnvVar::TweetPollTime))
    } else {
        None
    }
}

fn clone_or(v: &Option<String>, default: &str) -> (s: String)
    ensures
        s@ == or_default(*v, default@),
{
    match v {
        Some(s) => s.clone(),
        None => {
            let mut s = String::new();
            push_str(&mut s, default);
            s
        },
    }
}

fn parse_required_id(v: &Option<String>, var: EnvVar) -> (res: Result<u64, ConfigError>)
    ensures
        match v {
            None => res == Err::<u64, ConfigError>(ConfigError::Missing(var)),
            Some(s) => match discord_id_of(s@) {
                None => res == Err::<u64, ConfigError>(ConfigError::Invalid(var)),
                Some(x) => res == Ok::<u64, ConfigError>(x),
            },
        },
{
    match v {
        None => Err(ConfigError::Missing(var)),
        Some(s) => {
            let chars = chars_of(s.as_str());
            match parse_discord_id(&chars) {
                None => Err(ConfigError::Invalid(var)),
                Some(x) => Ok(x),
            }
        },
    }
}

fn parse_optional_id(v: &Option<String>, var: EnvVar) -> (res: Result<Option<u64>, ConfigError>)
    ensures
        match v {
            None => res == Ok::<Option<u64>, ConfigError>(None),
            Some(s) => match discord_id_of(s@) {
                None => res == Err::<Option<u64>, ConfigError>(ConfigError::Invalid(var)),
                Some(x) => res == Ok::<Option<u64>, ConfigError>(Some(x)),
            },
        },
{
    match v {
        None => Ok(None),
        Some(_) => match parse_required_id(v, var) {
            Ok(x) => Ok(Some(x)),
            Err(e) => Err(e),
        },
    }
}

/// The value of an optional number variable: `None` when unset.
pub open spec fn optional_value(v: Option<String>) -> Option<u64> {
    match v {
        Some(s) => discord_id_of(s@),
        None => None,
    }
}

impl Config {
    /// Builds the configuration from the environment variables.
    ///
    /// Required: `DISCORD_TOKEN`, `WOWAUDIT_TOKEN`, and `MOD_ROLE_ID` and
    /// `RAIDER_ROLE_ID` (Discord identifiers). Optional: `BOT_NAME`
    /// ("gulp-bot"), `BART_TOKEN` (empty), `CLIPS_CHANNEL_IDS` (a
    /// comma-separated list of Discord identifiers, none), `LOG_LEVEL`
    /// ("INFO"), and for the tweet poller `NITTER_BASE_URL`, `X_BASE_URL`
    /// ("https://x.com"), `TWITTER_USER_IDS` (a comma-separated list of names,
    /// none), `TWEET_CHANNEL_ID` (a Discord identifier) and `TWEET_POLL_TIME`
    /// (a positive number of seconds). The first problem met, in that order of
    /// reading, is the error.
    pub fn from_vars(v: &EnvVars) -> (res: Result<Config, ConfigError>)
        ensures
            match first_error(v) {
                Some(e) => res matches Err(f) && f == e,
                None => res matches Ok(c) && {
                    &&& c.discord_token@ == v.discord_token.unwrap()@
                    &&& c.wow_audit_token@ == v.wow_audit_token.unwrap()@
                    &&& c.bot_name@ == or_default(v.bot_name, "gulp-bot"@)
                    &&& Some(c.mod_role_id) == discord_id_of(v.mod_role_id.unwrap()@)
                    &&& Some(c.raider_role_id) == discord_id_of(v.raider_role_id.unwrap()@)
                    &&& c.bart_token@ == or_default(v.bart_token, ""@)
                    &&& Some(c.clips_channel_ids@) == ids_of(split_on(or_default(v.clips_channel_ids, ""@), ','))
                    &&& Some(c.log_level) == level_of(or_default(v.log_level, "INFO"@))
                    &&& opt_view(c.nitter_base_url) == opt_view(v.nitter_base_url)
                    &&& c.x_base_url@ == or_default(v.x_base_url, "https://x.com"@)
                    &&& strings_view(c.twitter_user_ids@) == names_of(split_on(or_default(v.twitter_user_ids, ""@), ','))
                    &&& c.tweet_target_channel_id == optional_value(v.tweet_channel_id)
                    &&& c.tweet_poll_time == optional_value(v.tweet_poll_time)
                },
            },
    {
        let discord_token = match &v.discord_token {
            Some(s) => s.clone(),
            None => return Err(ConfigError::Missing(EnvVar::DiscordToken)),
        };
        let wow_audit_token = match &v.wow_audit_token {
            Some(s) => s.clone(),
            None => return Err(ConfigError::Missing(EnvVar::WowAuditToken)),
        };
        let bot_name = clone_or(&v.bot_name, "gulp-bot");
        let mod_role_id = match parse_required_id(&v.mod_role_id, EnvVar::ModRoleId) {
            Ok(x) => x,
            Err(e) => return Err(e),
        };
        let raider_role_id = match parse_required_id(&v.raider_role_id, EnvVar::RaiderRoleId) {
            Ok(x) => x,
            Err(e) => return Err(e),
        };
        let bart_token = clone_or(&v.bart_token, "");
        let clips_text = clone_or(&v.clips_channel_ids, "");
        let clips_channel_ids = match parse_id_list(clips_text.as_str()) {
            Some(ids) => ids,
            None => return Err(ConfigError::Invalid(EnvVar::ClipsChannelIds)),
        };
        let level_text = clone_or(&v.log_level, "INFO");
        let log_level = match parse_level_filter(level_text.as_str()) {
            Some(l) => l,
            None => return Err(ConfigError::Invalid(EnvVar::LogLevel)),
        };
        let nitter_base_url = match &v.nitter_base_url {
            Some(s) => Some(s.clone()),
            None => None,
        };
        let x_base_url = clone_or(&v.x_base_url, "https://x.com");
        let users_text = clone_or(&v.twitter_user_ids, "");
        let twitter_user_ids = parse_name_list(users_text.as_str());
        let tweet_target_channel_id = match parse_optional_id(&v.tweet_channel_id, EnvVar::TweetChannelId) {
            Ok(x) => x,
            Err(e) => return Err(e),
        };
        let tweet_poll_time = match parse_optional_id(&v.tweet_poll_time, EnvVar::TweetPollTime) {
            Ok(x) => x,
            Err(e) => return Err(e),
        };
        Ok(Config {
            discord_token,
            wow_audit_token,
            bot_name,
            mod_role_id,
            raider_role_id,
            bart_token,
            clips_channel_ids,
            log_level,
            nitter_base_url,
            x_base_url,
            twitter_user_ids,
            tweet_target_channel_id,
            tweet_poll_time,
        })
    }
}

/// The abstract value of an optional string.
pub open spec fn opt_view(o: Option<String>) -> Option<Seq<char>> {
    match o {
        Some(s) => Some(s@),
        None => None,
    }
}

} // verus!
