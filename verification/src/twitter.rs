use vstd::prelude::*;

use crate::plain_feed::plain_feed_bytes;
use crate::text::{chars_of, occurs_at, push_char, push_chars, push_str, trim_end, trim_end_len};

verus! {

/// Removes every leading occurrence of the non-empty pattern `p` from `s`
/// (a pattern that is empty removes nothing).
pub open spec fn strip_prefixes(s: Seq<char>, p: Seq<char>) -> Seq<char>
    decreases s.len(),
{
    if p.len() > 0 && p.len() <= s.len() && s.take(p.len() as int) == p {
        strip_prefixes(s.skip(p.len() as int), p)
    } else {
        s
    }
}

/// The part of `s` before the first occurrence of `c` (all of `s` when `c` does not occur).
pub open spec fn before_first(s: Seq<char>, c: char) -> Seq<char>
    decreases s.len(),
{
    if s.len() == 0 {
        s
    } else if s[0] == c {
        Seq::empty()
    } else {
        seq![s[0]] + before_first(s.drop_first(), c)
    }
}

/// The X (Twitter) address of a tweet whose Nitter address is `nitter_url`:
/// the Nitter base (without trailing slashes) is stripped from the front, the
/// fragment is dropped, and what remains is appended to the X base (without
/// trailing slashes).
pub open spec fn x_url(nitter_url: Seq<char>, nitter_base: Seq<char>, x_base: Seq<char>) -> Seq<char> {
    trim_end(x_base, '/') + before_first(strip_prefixes(nitter_url, trim_end(nitter_base, '/')), '#')
}

/// The address of the RSS feed of `username` on the Nitter instance at `nitter_base`.
pub open spec fn feed_url_spec(nitter_base: Seq<char>, username: Seq<char>) -> Seq<char> {
    trim_end(nitter_base, '/') + seq!['/'] + username + seq!['/', 'r', 's', 's']
}

/// Rewrites the address of a tweet on a Nitter instance into its address on X.
pub fn to_x_url(nitter_url: &str, nitter_base: &str, x_base: &str) -> (res: String)
    ensures
        res@ == x_url(nitter_url@, nitter_base@, x_base@),
{
    let url = chars_of(nitter_url);
    let base = chars_of(nitter_base);
    let xb = chars_of(x_base);

    let base_len = trim_end_len(&base, '/');
    let mut prefix: Vec<char> = Vec::new();
    let mut k: usize = 0;
    while k < base_len
        invariant
            base_len <= base.len(),
            k <= base_len,
            prefix@ == base@.take(k as int),
        decreases base_len - k,
    {
        prefix.push(base[k]);
        assert(base@.take(k + 1) =~= base@.take(k as int).push(base@[k as int]));
        k += 1;
    }
    let ghost p = trim_end(nitter_base@, '/');
    assert(prefix@ == p);

    // Strip every leading copy of the trimmed base.
    let mut start: usize = 0;
    assert(url@.skip(0) =~= url@);
    if prefix.len() > 0 {
        while occurs_at(&url, &prefix, start)
            invariant
                start <= url.len(),
                prefix@ == p,
                p.len() > 0,
                strip_prefixes(url@.skip(start as int), p) == strip_prefixes(url@, p),
            decreases url.len() - start,
        {
            let ghost rest = url@.skip(start as int);
            assert(rest.take(p.len() as int) =~= url@.subrange(start as int, start + p.len()));
            assert(rest.skip(p.len() as int) =~= url@.skip(start + p.len()));
            start = start + prefix.len();
        }
        let ghost rest = url@.skip(start as int);
        assert(p.len() <= rest.len() ==> rest.take(p.len() as int) =~= url@.subrange(start as int, start + p.len()));
    }
    let ghost stripped = strip_prefixes(url@, p);
    assert(url@.skip(start as int) == stripped);

    // Cut at the first '#'.
    let mut end = start;
    while end < url.len() && url[end] != '#'
        invariant
            start <= end <= url.len(),
            forall|j: int| start <= j < end ==> url@[j] != '#',
            before_first(stripped, '#') == url@.subrange(start as int, end as int) + before_first(url@.skip(end as int), '#'),
        decreases url.len() - end,
    {
        let ghost r = url@.skip(end as int);
        assert(r.drop_first() =~= url@.skip(end + 1));
        assert(url@.subrange(start as int, end + 1) =~= url@.subrange(start as int, end as int) + seq![r[0]]);
        end += 1;
    }
    assert(before_first(url@.skip(end as int), '#') =~= Seq::<char>::empty());
    let xb_len = trim_end_len(&xb, '/');
    let mut res = String::new();
    push_chars(&mut res, &xb, 0, xb_len);
    assert(xb@.subrange(0, xb_len as int) =~= xb@.take(xb_len as int));
    push_chars(&mut res, &url, start, end);
    res
}

/// The address of the RSS feed of `username` on the Nitter instance at `nitter_base`.
pub fn feed_url(nitter_base: &str, username: &str) -> (res: String)
    ensures
        res@ == feed_url_spec(nitter_base@, username@),
{
    let base = chars_of(nitter_base);
    let n = trim_end_len(&base, '/');
    let mut res = String::new();
    push_chars(&mut res, &base, 0, n);
    assert(base@.subrange(0, n as int) =~= base@.take(n as int));
    push_char(&mut res, '/');
    push_str(&mut res, username);
    push_char(&mut res, '/');
    push_char(&mut res, 'r');
    push_char(&mut res, 's');
    push_char(&mut res, 's');
    assert(res@ =~= feed_url_spec(nitter_base@, username@));
    res
}


/// One entry of a parsed feed: its identifier and the addresses of its links, in order.
pub struct FeedEntry {
    pub id: String,
    pub links: Vec<String>,
}

/// A tweet to be posted: its feed identifier and its address on X.
pub struct Tweet {
    pub id: String,
    pub url: String,
}

impl View for FeedEntry {
    type V = (Seq<char>, Seq<Seq<char>>);

    open spec fn view(&self) -> (Seq<char>, Seq<Seq<char>>) {
        (self.id@, self.links@.map_values(|l: String| l@))
    }
}

impl View for Tweet {
    type V = (Seq<char>, Seq<char>);

    open spec fn view(&self) -> (Seq<char>, Seq<char>) {
        (self.id@, self.url@)
    }
}

/// The abstract values of a list of feed entries.
pub open spec fn entries_view(v: Seq<FeedEntry>) -> Seq<(Seq<char>, Seq<Seq<char>>)> {
    v.map_values(|e: FeedEntry| e@)
}

/// The abstract values of a list of tweets.
pub open spec fn tweets_view(v: Seq<Tweet>) -> Seq<(Seq<char>, Seq<char>)> {
    v.map_values(|t: Tweet| t@)
}

/// The tweets that a list of feed entries yields: each entry with a link, in
/// order, as its identifier and the X address of its first link; entries
/// without a link are skipped.
pub open spec fn tweets_of(
    entries: Seq<(Seq<char>, Seq<Seq<char>>)>,
    nitter_base: Seq<char>,
    x_base: Seq<char>,
) -> Seq<(Seq<char>, Seq<char>)>
    decreases entries.len(),
{
    if entries.len() == 0 {
        Seq::empty()
    } else {
        let prev = tweets_of(entries.drop_last(), nitter_base, x_base);
        let (id, links) = entries.last();
        if links.len() > 0 {
            prev.push((id, x_url(links[0], nitter_base, x_base)))
        } else {
            prev
        }
    }
}

/// Two lists of entries that agree on every link, and on the identifier of
/// every entry that has a link.
pub open spec fn agree_on_linked(
    a: Seq<(Seq<char>, Seq<Seq<char>>)>,
    b: Seq<(Seq<char>, Seq<Seq<char>>)>,
) -> bool {
    &&& a.len() == b.len()
    &&& forall|i: int| 0 <= i < a.len() ==> #[trigger] a[i].1 == b[i].1
    &&& forall|i: int| 0 <= i < a.len() && (#[trigger] a[i].1).len() > 0 ==> a[i].0 == b[i].0
}

proof fn lemma_tweets_of_linked_only(
    a: Seq<(Seq<char>, Seq<Seq<char>>)>,
    b: Seq<(Seq<char>, Seq<Seq<char>>)>,
    nitter_base: Seq<char>,
    x_base: Seq<char>,
)
    requires
        agree_on_linked(a, b),
    ensures
        tweets_of(a, nitter_base, x_base) == tweets_of(b, nitter_base, x_base),
    decreases a.len(),
{
    if a.len() > 0 {
        let i = a.len() - 1;
        assert(a[i].1 == b[i].1);
        assert(agree_on_linked(a.drop_last(), b.drop_last())) by {
            assert forall|j: int| 0 <= j < a.drop_last().len() implies #[trigger] a.drop_last()[j].1
                == b.drop_last()[j].1 by {
                assert(a[j].1 == b[j].1);
            }
            assert forall|j: int| 0 <= j < a.drop_last().len() && (#[trigger] a.drop_last()[j].1).len() > 0
                implies a.drop_last()[j].0 == b.drop_last()[j].0 by {
                assert(a[j].1 == b[j].1);
            }
        }
        lemma_tweets_of_linked_only(a.drop_last(), b.drop_last(), nitter_base, x_base);
    }
}

/// Law: the tweets of a list of feed entries are exactly its entries that
/// have a link, all of them and in order, each as its identifier and the X
/// address of its first link.
pub proof fn law_one_tweet_per_linked_entry(
    entries: Seq<(Seq<char>, Seq<Seq<char>>)>,
    nitter_base: Seq<char>,
    x_base: Seq<char>,
)
    ensures
        tweets_of(entries, nitter_base, x_base) == entries.filter(|e: (Seq<char>, Seq<Seq<char>>)| e.1.len() > 0).map_values(
            |e: (Seq<char>, Seq<Seq<char>>)| (e.0, x_url(e.1[0], nitter_base, x_base)),
        ),
    decreases entries.len(),
{
    reveal(Seq::filter);
    let pred = |e: (Seq<char>, Seq<Seq<char>>)| e.1.len() > 0;
    let tw = |e: (Seq<char>, Seq<Seq<char>>)| (e.0, x_url(e.1[0], nitter_base, x_base));
    if entries.len() > 0 {
        law_one_tweet_per_linked_entry(entries.drop_last(), nitter_base, x_base);
        let f = entries.filter(pred);
        let g = entries.drop_last().filter(pred);
        assert(f == if pred(entries.last()) { g.push(entries.last()) } else { g });
        if pred(entries.last()) {
            assert(f.map_values(tw) =~= g.map_values(tw).push(tw(entries.last())));
        }
    } else {
        assert(entries.filter(pred).map_values(tw) =~= Seq::<(Seq<char>, Seq<char>)>::empty());
    }
}

/// Law: the number of tweets is the number of entries that have a link.
pub proof fn law_tweet_count(entries: Seq<(Seq<char>, Seq<Seq<char>>)>, nitter_base: Seq<char>, x_base: Seq<char>)
    ensures
        tweets_of(entries, nitter_base, x_base).len() == entries.filter(
            |e: (Seq<char>, Seq<Seq<char>>)| e.1.len() > 0,
        ).len(),
{
    law_one_tweet_per_linked_entry(entries, nitter_base, x_base);
}

/// Turns feed entries into tweets: every entry with a link becomes a tweet
/// carrying its identifier and the X address of its first link.
pub fn tweets_from_entries(entries: &Vec<FeedEntry>, nitter_base: &str, x_base: &str) -> (res: Vec<Tweet>)
    ensures
        tweets_view(res@) == tweets_of(entries_view(entries@), nitter_base@, x_base@),
        tweets_view(res@) == entries_view(entries@).filter(|e: (Seq<char>, Seq<Seq<char>>)| e.1.len() > 0).map_values(
            |e: (Seq<char>, Seq<Seq<char>>)| (e.0, x_url(e.1[0], nitter_base@, x_base@)),
        ),
{
    proof {
        law_one_tweet_per_linked_entry(entries_view(entries@), nitter_base@, x_base@);
    }
    let mut res: Vec<Tweet> = Vec::new();
    let mut i: usize = 0;
    while i < entries.len()
        invariant
            i <= entries.len(),
            tweets_view(res@) == tweets_of(entries_view(entries@.take(i as int)), nitter_base@, x_base@),
        decreases entries.len() - i,
    {
        let ghost before = res@;
        assert(entries_view(entries@.take(i + 1)).drop_last() =~= entries_view(entries@.take(i as int)));
        let entry = &entries[i];
        if entry.links.len() > 0 {
            let url = to_x_url(entry.links[0].as_str(), nitter_base, x_base);
            res.push(Tweet { id: entry.id.clone(), url });
            assert(tweets_view(res@) =~= tweets_view(before).push(res@.last()@));
        }
        i += 1;
    }
    assert(entries@.take(entries.len() as int) =~= entries@);
    res
}

/// What `feed_rs::parser::parse` makes of a byte string: `None` where it
/// fails, and otherwise, for each entry in order, its identifier and the
/// addresses of its links.
pub uninterp spec fn parsed_feed(bytes: Seq<u8>) -> Option<Seq<(Seq<char>, Seq<Seq<char>>)>>;

/// Declares the error type of `feed_rs::parser::parse`.
#[verifier::external_type_specification]
#[verifier::external_body]
pub struct ExParseFeedError(feed_rs::parser::ParseFeedError);

/// Calls `feed_rs::parser::parse` on the bytes of a feed and keeps, for each
/// entry, its identifier and the hrefs of its links. Trusted: on a plain feed
/// document (see `plain_feed_bytes`, which keeps away every input on which
/// `feed_rs` panics, and a few more) the call returns, and fails exactly where `parsed_feed`
/// is `None`; otherwise the entries agree with `parsed_feed` on every link
/// and on the identifier of every entry that has a link. Left unsaid: the
/// identifier of an entry with neither an identifier nor a link, which
/// `feed_rs` fills with a random UUID.
#[verifier::external_body]
fn parse_feed_entries(bytes: &[u8]) -> (res: Result<Vec<FeedEntry>, feed_rs::parser::ParseFeedError>)
    requires
        plain_feed_bytes(bytes@),
    ensures
        match (res, parsed_feed(bytes@)) {
            (Ok(v), Some(s)) => agree_on_linked(entries_view(v@), s),
            (Err(_), None) => true,
            _ => false,
        },
{
    match feed_rs::parser::parse(bytes) {
        Ok(feed) => Ok(feed.entries.into_iter().map(|e| FeedEntry {
            id: e.id,
            links: e.links.into_iter().map(|l| l.href).collect(),
        }).collect()),
        Err(e) => Err(e),
    }
}

/// Why a feed could not be turned into tweets.
#[derive(Debug, PartialEq, Eq, Structural)]
pub enum FeedError {
    /// The bytes are not a feed that `feed_rs` can parse.
    Unparsable,
    /// The bytes are not a plain feed document (see `plain_feed_bytes`):
    /// `feed_rs` could panic on them, so they are not handed to it.
    Unsupported,
}

/// Parses the bytes of a Nitter RSS feed into the tweets it announces, with
/// their addresses rewritten from the Nitter instance to X. Documents that are
/// not plain feeds (those on which the parser could panic) are refused
/// before they reach it.
pub fn parse_tweets(bytes: &[u8], nitter_base: &str, x_base: &str) -> (res: Result<Vec<Tweet>, FeedError>)
    ensures
        !plain_feed_bytes(bytes@) ==> res == Err::<Vec<Tweet>, FeedError>(FeedError::Unsupported),
        plain_feed_bytes(bytes@) ==> match parsed_feed(bytes@) {
            None => res == Err::<Vec<Tweet>, FeedError>(FeedError::Unparsable),
            Some(s) => res matches Ok(t) && tweets_view(t@) == tweets_of(s, nitter_base@, x_base@)
                && tweets_view(t@) == s.filter(|e: (Seq<char>, Seq<Seq<char>>)| e.1.len() > 0).map_values(
                |e: (Seq<char>, Seq<Seq<char>>)| (e.0, x_url(e.1[0], nitter_base@, x_base@)),
            ),
        },
{
    proof {
        if parsed_feed(bytes@) is Some {
            law_one_tweet_per_linked_entry(parsed_feed(bytes@).unwrap(), nitter_base@, x_base@);
        }
    }
    if !crate::plain_feed::plain_feed(bytes) {
        return Err(FeedError::Unsupported);
    }
    match parse_feed_entries(bytes) {
        Ok(entries) => {
            let tweets = tweets_from_entries(&entries, nitter_base, x_base);
            proof {
                let s = parsed_feed(bytes@).unwrap();
                lemma_tweets_of_linked_only(entries_view(entries@), s, nitter_base@, x_base@);
            }
            Ok(tweets)
        },
        Err(_) => Err(FeedError::Unparsable),
    }
}


proof fn lemma_before_first_absent(s: Seq<char>, c: char)
    requires
        !s.contains(c),
    ensures
        before_first(s, c) == s,
    decreases s.len(),
{
    if s.len() > 0 {
        assert(s[0] != c);
        assert(!s.drop_first().contains(c)) by {
            if s.drop_first().contains(c) {
                let i = choose|i: int| 0 <= i < s.drop_first().len() && s.drop_first()[i] == c;
                assert(s[i + 1] == c);
            }
        }
        lemma_before_first_absent(s.drop_first(), c);
        assert(seq![s[0]] + s.drop_first() =~= s);
    }
}

/// Law: the address of a tweet on the Nitter instance, its Nitter base
/// followed by a path without fragment, becomes the same path on X (when the
/// path does not itself begin with the Nitter base).
pub proof fn law_x_url_keeps_path(path: Seq<char>, nitter_base: Seq<char>, x_base: Seq<char>)
    requires
        trim_end(nitter_base, '/').len() > 0,
        !path.contains('#'),
        !(trim_end(nitter_base, '/').len() <= path.len() && path.take(trim_end(nitter_base, '/').len() as int) == trim_end(nitter_base, '/')),
    ensures
        x_url(trim_end(nitter_base, '/') + path, nitter_base, x_base) == trim_end(x_base, '/') + path,
{
    let b = trim_end(nitter_base, '/');
    let u = b + path;
    assert(u.take(b.len() as int) =~= b);
    assert(u.skip(b.len() as int) =~= path);
    assert(strip_prefixes(path, b) == path);
    assert(strip_prefixes(u, b) == path);
    lemma_before_first_absent(path, '#');
}

proof fn lemma_strip_prefixes_keeps_tail(u: Seq<char>, t: Seq<char>, b: Seq<char>)
    requires
        !u.contains('#'),
        !b.contains('#'),
        t.len() > 0,
        t[0] == '#',
    ensures
        strip_prefixes(u + t, b) == strip_prefixes(u, b) + t,
        !strip_prefixes(u, b).contains('#'),
    decreases u.len(),
{
    let ut = u + t;
    if b.len() > 0 && b.len() <= u.len() && u.take(b.len() as int) == b {
        assert(ut.take(b.len() as int) =~= u.take(b.len() as int));
        assert(ut.skip(b.len() as int) =~= u.skip(b.len() as int) + t);
        assert(!u.skip(b.len() as int).contains('#')) by {
            if u.skip(b.len() as int).contains('#') {
                let k = choose|k: int| 0 <= k < u.skip(b.len() as int).len() && u.skip(b.len() as int)[k] == '#';
                assert(u[k + b.len()] == '#');
            }
        }
        lemma_strip_prefixes_keeps_tail(u.skip(b.len() as int), t, b);
    } else if b.len() > 0 && b.len() <= u.len() {
        assert(ut.take(b.len() as int) =~= u.take(b.len() as int));
    } else if b.len() > 0 && b.len() <= ut.len() && ut.take(b.len() as int) == b {
        assert(ut.take(b.len() as int)[u.len() as int] == '#');
        assert(b.contains('#'));
    }
}

proof fn lemma_before_first_stops(s: Seq<char>, t: Seq<char>)
    requires
        !s.contains('#'),
        t.len() > 0,
        t[0] == '#',
    ensures
        before_first(s + t, '#') == s,
    decreases s.len(),
{
    if s.len() == 0 {
        assert(s + t =~= t);
    } else {
        assert((s + t).drop_first() =~= s.drop_first() + t);
        assert(!s.drop_first().contains('#')) by {
            if s.drop_first().contains('#') {
                let k = choose|k: int| 0 <= k < s.drop_first().len() && s.drop_first()[k] == '#';
                assert(s[k + 1] == '#');
            }
        }
        assert(s[0] != '#');
        lemma_before_first_stops(s.drop_first(), t);
        assert(seq![s[0]] + s.drop_first() =~= s);
    }
}

/// Law: the fragment of a tweet's address does not change its address on X
/// (when the Nitter base, without trailing slashes, holds no `#`).
pub proof fn law_fragment_is_dropped(url: Seq<char>, fragment: Seq<char>, nitter_base: Seq<char>, x_base: Seq<char>)
    requires
        !url.contains('#'),
        !trim_end(nitter_base, '/').contains('#'),
    ensures
        x_url(url + seq!['#'] + fragment, nitter_base, x_base) == x_url(url, nitter_base, x_base),
{
    let b = trim_end(nitter_base, '/');
    let t = seq!['#'] + fragment;
    assert(url + seq!['#'] + fragment =~= url + t);
    lemma_strip_prefixes_keeps_tail(url, t, b);
    lemma_before_first_stops(strip_prefixes(url, b), t);
    lemma_before_first_absent(strip_prefixes(url, b), '#');
}

/// What one batch of fetched tweets does to the set of identifiers seen so
/// far, and which of its tweets are to be posted: each tweet, in order, whose
/// identifier was not seen before is recorded, and is posted unless this is
/// the first polling round (which only learns the current state of the feeds).
pub open spec fn process(
    seen: Set<Seq<char>>,
    first_round: bool,
    tweets: Seq<(Seq<char>, Seq<char>)>,
) -> (Set<Seq<char>>, Seq<(Seq<char>, Seq<char>)>)
    decreases tweets.len(),
{
    if tweets.len() == 0 {
        (seen, Seq::empty())
    } else {
        let (s, posted) = process(seen, first_round, tweets.drop_last());
        let t = tweets.last();
        if s.contains(t.0) {
            (s, posted)
        } else {
            (s.insert(t.0), if first_round { posted } else { posted.push(t) })
        }
    }
}

/// The state of the tweet poller: the identifiers of every tweet seen so far,
/// and whether the first polling round is still under way.
pub struct Poller {
    seen: Vec<String>,
    first_round: bool,
}

impl Poller {
    /// The identifiers of every tweet seen so far.
    pub closed spec fn seen_ids(&self) -> Set<Seq<char>> {
        self.seen@.map_values(|s: String| s@).to_set()
    }

    /// Whether the first polling round is still under way.
    pub closed spec fn in_first_round(&self) -> bool {
        self.first_round
    }

    /// A poller that has seen nothing and is in its first round.
    pub fn new() -> (p: Poller)
        ensures
            p.seen_ids() == Set::<Seq<char>>::empty(),
            p.in_first_round(),
    {
        let p = Poller { seen: Vec::new(), first_round: true };
        assert(p.seen@.map_values(|s: String| s@).to_set() =~= Set::<Seq<char>>::empty());
        p
    }

    fn has_seen(&self, id: &String) -> (b: bool)
        ensures
            b == self.seen_ids().contains(id@),
    {
        let mut i: usize = 0;
        while i < self.seen.len()
            invariant
                i <= self.seen.len(),
                forall|j: int| 0 <= j < i ==> self.seen@[j]@ != id@,
            decreases self.seen.len() - i,
        {
            if self.seen[i] == *id {
                assert(self.seen@.map_values(|s: String| s@)[i as int] == id@);
                return true;
            }
            i += 1;
        }
        assert(!self.seen@.map_values(|s: String| s@).contains(id@));
        false
    }

    /// Takes the tweets fetched from one feed, records their identifiers, and
    /// returns those to post (see `process`).
    pub fn observe(&mut self, tweets: Vec<Tweet>) -> (post: Vec<Tweet>)
        ensures
            (final(self).seen_ids(), tweets_view(post@)) == process(
                old(self).seen_ids(),
                old(self).in_first_round(),
                tweets_view(tweets@),
            ),
            final(self).in_first_round() == old(self).in_first_round(),
    {
        let ghost seen0 = self.seen_ids();
        let mut post: Vec<Tweet> = Vec::new();
        let mut i: usize = 0;
        while i < tweets.len()
            invariant
                i <= tweets.len(),
                self.first_round == old(self).first_round,
                (self.seen_ids(), tweets_view(post@)) == process(
                    seen0,
                    self.first_round,
                    tweets_view(tweets@.take(i as int)),
                ),
            decreases tweets.len() - i,
        {
            assert(tweets_view(tweets@.take(i + 1)).drop_last() =~= tweets_view(tweets@.take(i as int)));
            let t = &tweets[i];
            if !self.has_seen(&t.id) {
                let ghost before = self.seen@;
                self.seen.push(t.id.clone());
                assert(self.seen@.map_values(|s: String| s@) =~= before.map_values(|s: String| s@).push(t.id@));
                proof {
                    before.map_values(|s: String| s@).lemma_push_to_set_commute(t.id@);
                }
                if !self.first_round {
                    let ghost pb = post@;
                    post.push(Tweet { id: t.id.clone(), url: t.url.clone() });
                    assert(tweets_view(post@) =~= tweets_view(pb).push(t@));
                }
            }
            i += 1;
        }
        assert(tweets@.take(tweets.len() as int) =~= tweets@);
        post
    }

    /// Ends a polling round: from now on new tweets are posted. Returns whether
    /// the round that ended was the first.
    pub fn finish_round(&mut self) -> (was_first: bool)
        ensures
            was_first == old(self).in_first_round(),
            !final(self).in_first_round(),
            final(self).seen_ids() == old(self).seen_ids(),
    {
        let was_first = self.first_round;
        self.first_round = false;
        was_first
    }
}


/// Whether some tweet of `t` carries the identifier `id`.
pub open spec fn has_id(t: Seq<(Seq<char>, Seq<char>)>, id: Seq<char>) -> bool {
    exists|i: int| 0 <= i < t.len() && (#[trigger] t[i]).0 == id
}

proof fn lemma_process(seen: Set<Seq<char>>, first_round: bool, t: Seq<(Seq<char>, Seq<char>)>)
    ensures
        ({
            let (s, p) = process(seen, first_round, t);
            &&& forall|x: Seq<char>| #[trigger] s.contains(x) <==> (seen.contains(x) || has_id(t, x))
            &&& forall|j: int| 0 <= j < p.len() ==> !seen.contains((#[trigger] p[j]).0) && t.contains(p[j])
            &&& forall|j: int, k: int| 0 <= j < k < p.len() ==> (#[trigger] p[j]).0 != (#[trigger] p[k]).0
            &&& first_round ==> p.len() == 0
            &&& !first_round ==> forall|i: int|
                0 <= i < t.len() && !seen.contains((#[trigger] t[i]).0) ==> has_id(p, t[i].0)
        }),
    decreases t.len(),
{
    if t.len() > 0 {
        let tp = t.drop_last();
        lemma_process(seen, first_round, tp);
        let (s1, p1) = process(seen, first_round, tp);
        let last = t.last();
        let (s, p) = process(seen, first_round, t);
        assert forall|x: Seq<char>| has_id(tp, x) implies has_id(t, x) by {
            let i = choose|i: int| 0 <= i < tp.len() && (#[trigger] tp[i]).0 == x;
            assert(t[i] == tp[i]);
        }
        assert(has_id(t, last.0)) by {
            assert(t[t.len() - 1] == last);
        }
        assert forall|x: Seq<char>| has_id(t, x) && x != last.0 implies has_id(tp, x) by {
            let i = choose|i: int| 0 <= i < t.len() && (#[trigger] t[i]).0 == x;
            assert(i < t.len() - 1);
            assert(tp[i] == t[i]);
        }
        assert forall|j: int| 0 <= j < p1.len() implies t.contains(#[trigger] p1[j]) by {
            let k = choose|k: int| 0 <= k < tp.len() && tp[k] == p1[j];
            assert(t[k] == tp[k]);
        }
        assert forall|j: int| 0 <= j < p1.len() implies s1.contains((#[trigger] p1[j]).0) by {
            let k = choose|k: int| 0 <= k < tp.len() && tp[k] == p1[j];
            assert(has_id(tp, tp[k].0));
        }
        if !first_round {
            assert forall|i: int| 0 <= i < t.len() && !seen.contains((#[trigger] t[i]).0) implies has_id(p, t[i].0) by {
                if i < t.len() - 1 {
                    assert(tp[i] == t[i]);
                    let j = choose|j: int| 0 <= j < p1.len() && (#[trigger] p1[j]).0 == tp[i].0;
                    assert(p[j] == p1[j]);
                } else if s1.contains(last.0) {
                    assert(has_id(tp, last.0));
                    let k = choose|k: int| 0 <= k < tp.len() && (#[trigger] tp[k]).0 == last.0;
                    assert(!seen.contains(tp[k].0));
                    let j = choose|j: int| 0 <= j < p1.len() && (#[trigger] p1[j]).0 == tp[k].0;
                    assert(p[j] == p1[j]);
                } else {
                    assert(p[p.len() - 1] == last);
                }
            }
        }
        if !s1.contains(last.0) && !first_round {
            assert forall|j: int| 0 <= j < p.len() implies t.contains(#[trigger] p[j]) by {
                if j < p.len() - 1 {
                    assert(p[j] == p1[j]);
                } else {
                    assert(t[t.len() - 1] == p[j]);
                }
            }
        }
    }
}

/// Law: the first polling round posts nothing.
pub proof fn law_first_round_posts_nothing(seen: Set<Seq<char>>, tweets: Seq<(Seq<char>, Seq<char>)>)
    ensures
        process(seen, true, tweets).1.len() == 0,
{
    lemma_process(seen, true, tweets);
}

/// Law: after a batch, the seen identifiers are exactly those seen before
/// together with the identifiers of the batch.
pub proof fn law_seen_is_union(seen: Set<Seq<char>>, first_round: bool, tweets: Seq<(Seq<char>, Seq<char>)>)
    ensures
        forall|x: Seq<char>| #[trigger] process(seen, first_round, tweets).0.contains(x)
            <==> (seen.contains(x) || has_id(tweets, x)),
{
    lemma_process(seen, first_round, tweets);
}

/// Law: every posted tweet comes from the batch, had an identifier not seen
/// before, and no identifier is posted twice within a batch.
pub proof fn law_posted_are_new(seen: Set<Seq<char>>, first_round: bool, tweets: Seq<(Seq<char>, Seq<char>)>)
    ensures
        ({
            let p = process(seen, first_round, tweets).1;
            &&& forall|j: int| 0 <= j < p.len() ==> !seen.contains((#[trigger] p[j]).0) && tweets.contains(p[j])
            &&& forall|j: int, k: int| 0 <= j < k < p.len() ==> (#[trigger] p[j]).0 != (#[trigger] p[k]).0
        }),
{
    lemma_process(seen, first_round, tweets);
}

/// Law: once the first round is over, every tweet whose identifier was never
/// seen is posted.
pub proof fn law_new_tweets_are_posted(seen: Set<Seq<char>>, tweets: Seq<(Seq<char>, Seq<char>)>)
    ensures
        forall|i: int| 0 <= i < tweets.len() && !seen.contains((#[trigger] tweets[i]).0)
            ==> has_id(process(seen, false, tweets).1, tweets[i].0),
{
    lemma_process(seen, false, tweets);
}

/// Law: a tweet posted after one batch is never posted again after a later
/// batch, whatever the rounds.
pub proof fn law_never_posted_twice(
    seen: Set<Seq<char>>,
    first1: bool,
    batch1: Seq<(Seq<char>, Seq<char>)>,
    first2: bool,
    batch2: Seq<(Seq<char>, Seq<char>)>,
)
    ensures
        ({
            let (s1, p1) = process(seen, first1, batch1);
            let p2 = process(s1, first2, batch2).1;
            forall|i: int, j: int| 0 <= i < p1.len() && 0 <= j < p2.len() ==> (#[trigger] p1[i]).0 != (#[trigger] p2[j]).0
        }),
{
    lemma_process(seen, first1, batch1);
    let (s1, p1) = process(seen, first1, batch1);
    lemma_process(s1, first2, batch2);
    let p2 = process(s1, first2, batch2).1;
    assert forall|i: int, j: int| 0 <= i < p1.len() && 0 <= j < p2.len() implies (#[trigger] p1[i]).0 != (#[trigger] p2[j]).0 by {
        let k = choose|k: int| 0 <= k < batch1.len() && batch1[k] == p1[i];
        assert(has_id(batch1, batch1[k].0));
        assert(s1.contains(p1[i].0));
    }
}

} // verus!
