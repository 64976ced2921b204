use yuh_bot::plain_feed::plain_feed;
use yuh_bot::twitter::{feed_url, parse_tweets, to_x_url, FeedError, Poller, Tweet};

fn tweet(id: &str, url: &str) -> Tweet {
    Tweet { id: id.to_string(), url: url.to_string() }
}

fn pairs(tweets: &[Tweet]) -> Vec<(String, String)> {
    tweets.iter().map(|t| (t.id.clone(), t.url.clone())).collect()
}

#[test]
fn to_x_url_rewrites_host_and_drops_fragment() {
    let url = to_x_url("https://nitter.net/user/status/123#m", "https://nitter.net/", "https://x.com/");
    assert_eq!(url, "https://x.com/user/status/123");
}

#[test]
fn to_x_url_trims_every_trailing_slash_of_both_bases() {
    let url = to_x_url("https://nitter.net/a/status/9", "https://nitter.net///", "https://x.com//");
    assert_eq!(url, "https://x.com/a/status/9");
}

#[test]
fn to_x_url_strips_repeated_base() {
    assert_eq!(to_x_url("ababc#z", "ab", "X"), "Xc");
}

#[test]
fn to_x_url_keeps_foreign_address() {
    assert_eq!(to_x_url("https://other.org/p#f", "https://nitter.net", "https://x.com"), "https://x.comhttps://other.org/p");
}

#[test]
fn to_x_url_empty_base_strips_nothing() {
    assert_eq!(to_x_url("/user/status/1", "/", "https://x.com"), "https://x.com/user/status/1");
}

#[test]
fn feed_url_joins_base_user_and_rss() {
    assert_eq!(feed_url("https://nitter.net//", "someone"), "https://nitter.net/someone/rss");
    assert_eq!(feed_url("https://nitter.net", "a"), "https://nitter.net/a/rss");
}

const FEED: &str = r#"<?xml version="1.0" encoding="UTF-8"?>
<rss version="2.0">
<channel>
<title>user / X</title>
<link>https://nitter.net/user</link>
<description>feed</description>
<item><title>a</title><link>https://nitter.net/user/status/1#m</link><guid>https://nitter.net/user/status/1#m</guid></item>
<item><title>b</title><guid>no-link</guid></item>
<item><title>c</title><link>https://nitter.net/user/status/2#m</link><guid>id2</guid></item>
</channel>
</rss>"#;

#[test]
fn parse_tweets_reads_linked_entries() {
    let tweets = parse_tweets(FEED.as_bytes(), "https://nitter.net", "https://x.com").unwrap();
    assert_eq!(
        pairs(&tweets),
        vec![
            ("https://nitter.net/user/status/1#m".to_string(), "https://x.com/user/status/1".to_string()),
            ("id2".to_string(), "https://x.com/user/status/2".to_string()),
        ]
    );
}

#[test]
fn parse_tweets_refuses_garbage() {
    assert_eq!(parse_tweets(b"not a feed", "https://nitter.net", "https://x.com").err(), Some(FeedError::Unparsable));
}

#[test]
fn poller_first_round_posts_nothing() {
    let mut p = Poller::new();
    let posted = p.observe(vec![tweet("1", "u1"), tweet("2", "u2")]);
    assert!(posted.is_empty());
    assert!(p.finish_round());
    assert!(!p.finish_round());
}

#[test]
fn poller_posts_only_new_tweets_once() {
    let mut p = Poller::new();
    p.observe(vec![tweet("1", "u1")]);
    p.finish_round();
    let posted = p.observe(vec![tweet("1", "u1"), tweet("2", "u2"), tweet("2", "u2b"), tweet("3", "u3")]);
    assert_eq!(pairs(&posted), pairs(&[tweet("2", "u2"), tweet("3", "u3")]));
    let again = p.observe(vec![tweet("3", "u3"), tweet("2", "u2")]);
    assert!(again.is_empty());
}

#[test]
fn poller_remembers_ids_seen_in_first_round_across_feeds() {
    let mut p = Poller::new();
    p.observe(vec![tweet("a", "ua")]);
    p.observe(vec![tweet("b", "ub")]);
    p.finish_round();
    let posted = p.observe(vec![tweet("b", "ub"), tweet("c", "uc")]);
    assert_eq!(pairs(&posted), pairs(&[tweet("c", "uc")]));
}

#[test]
fn fragment_does_not_change_x_address() {
    let base = "https://nitter.net";
    for frag in ["", "m", "#", "a#b"] {
        let with = format!("https://nitter.net/u/status/7#{}", frag);
        assert_eq!(to_x_url(&with, base, "https://x.com"), to_x_url("https://nitter.net/u/status/7", base, "https://x.com"));
    }
}

const NITTER_FEED: &str = r#"<?xml version="1.0" encoding="UTF-8"?>
<rss xmlns:atom="http://www.w3.org/2005/Atom" xmlns:dc="http://purl.org/dc/elements/1.1/" version="2.0">
  <channel>
    <atom:link href="https://nitter.net/user/rss" rel="self" type="application/rss+xml" />
    <title>User / @user</title>
    <link>https://nitter.net/user</link>
    <description>Twitter feed for: @user. Generated by nitter.net</description>
    <item>
      <title>It&#x27;s raid night 🎉 with @friend</title>
      <dc:creator>@user</dc:creator>
      <description><![CDATA[<p>It's raid night 🎉 with <a href="https://nitter.net/friend">@friend</a></p>]]></description>
      <pubDate>Tue, 05 Mar 2024 14:00:00 GMT</pubDate>
      <guid>https://nitter.net/user/status/42#m</guid>
      <link>https://nitter.net/user/status/42#m</link>
    </item>
  </channel>
</rss>"#;

#[test]
fn nitter_feed_is_plain_and_parsed() {
    assert!(plain_feed(NITTER_FEED.as_bytes()));
    let tweets = parse_tweets(NITTER_FEED.as_bytes(), "https://nitter.net", "https://x.com").unwrap();
    assert_eq!(
        pairs(&tweets),
        vec![("https://nitter.net/user/status/42#m".to_string(), "https://x.com/user/status/42".to_string())]
    );
}

fn unsupported(doc: &str) {
    assert!(!plain_feed(doc.as_bytes()), "{}", doc);
    assert_eq!(parse_tweets(doc.as_bytes(), "https://nitter.net", "https://x.com").err(), Some(FeedError::Unsupported), "{}", doc);
}

#[test]
fn unsafe_durations_are_not_handed_to_the_parser() {
    // More digits than a u64 holds, in an iTunes duration.
    unsupported(r#"<rss version="2.0" xmlns:itunes="http://www.itunes.com/dtds/podcast-1.0.dtd"><channel><item><guid>1</guid><itunes:duration>1234567890123456789012345</itunes:duration></item></channel></rss>"#);
    // Digits outside ASCII, which `\d` matches but `u64::from_str` refuses.
    unsupported("<rss version=\"2.0\" xmlns:itunes=\"http://www.itunes.com/dtds/podcast-1.0.dtd\"><channel><item><itunes:duration>\u{661}\u{662}</itunes:duration></item></channel></rss>");
    // Digits joined across a comment.
    unsupported("<rss><item><itunes:duration>12345678<!-- -->90123456</itunes:duration></item></rss>");
    // A media time attribute with too many digits.
    unsupported(r#"<rss version="2.0" xmlns:media="http://search.yahoo.com/mrss/"><channel><item><media:thumbnail url="u" time="99999999999999999999"/></item></channel></rss>"#);
}

#[test]
fn podcast_feeds_with_ordinary_durations_pass() {
    let doc = r#"<?xml version='1.0' encoding='utf-8' standalone="yes"?>
<rss version="2.0" xmlns:itunes="http://www.itunes.com/dtds/podcast-1.0.dtd" xmlns:media="http://search.yahoo.com/mrss/">
<channel><title>P</title>
<itunes:owner><itunes:name>Ann</itunes:name><itunes:email>ann@example.com</itunes:email></itunes:owner>
<item><guid>ep1</guid><link>https://nitter.net/p/status/1</link><itunes:duration>01:02:03.5</itunes:duration>
<media:thumbnail url="https://example.com/t.jpg" time="12:05:35"/></item>
</channel></rss>"#;
    assert!(plain_feed(doc.as_bytes()));
    let tweets = parse_tweets(doc.as_bytes(), "https://nitter.net", "https://x.com").unwrap();
    assert_eq!(pairs(&tweets), vec![("ep1".to_string(), "https://x.com/p/status/1".to_string())]);
}

#[test]
fn addresses_next_to_wide_characters_are_not_handed_to_the_parser() {
    unsupported("<rss version=\"2.0\" xmlns:dc=\"http://purl.org/dc/elements/1.1/\"><channel><item><guid>1</guid><dc:creator>\u{ab}a@b.cc</dc:creator></item></channel></rss>");
    unsupported("<rss><channel><item><dc:creator>\u{ab}a<![CDATA[@b.cc]]></dc:creator></item></channel></rss>");
    unsupported("<rss><channel><item><dc:creator>\u{ab}a<!-- -->@b.cc</dc:creator></item></channel></rss>");
    unsupported("<rss><channel><item><dc:creator>\u{ab}a&#64;b.cc</dc:creator></item></channel></rss>");
    unsupported("<rss><channel><item><author>a@b.cc (J&#233;r&#244;me)</author></item></channel></rss>");
    // A named entity that another entity table could turn into any character.
    unsupported("<rss><channel><managingEditor>a&eacute;@b.cc</managingEditor></channel></rss>");
}

#[test]
fn addresses_outside_person_elements_pass() {
    let doc = "<rss version=\"2.0\"><channel><item><title>\u{c9}crivez \u{e0} a@b.cc \u{1f389}</title>\
<author>lawyer@boyer.net (Lawyer Boyer)</author><dc:creator>@user</dc:creator>\
<guid>g</guid><link>https://nitter.net/u/status/3#m</link></item></channel></rss>";
    assert!(plain_feed(doc.as_bytes()));
    let tweets = parse_tweets(doc.as_bytes(), "https://nitter.net", "https://x.com").unwrap();
    assert_eq!(pairs(&tweets), vec![("g".to_string(), "https://x.com/u/status/3".to_string())]);
}

#[test]
fn other_encodings_and_unreadable_markup_are_not_handed_to_the_parser() {
    unsupported("<?xml version=\"1.0\" encoding=\"ISO-8859-1\"?><rss></rss>");
    unsupported("<rss><?xml version=\"1.0\" encoding=\"UTF-16\"?></rss>");
    let mut utf16: Vec<u8> = vec![0xFF, 0xFE];
    utf16.extend("<rss></rss>".encode_utf16().flat_map(|u| u.to_le_bytes()));
    assert!(!plain_feed(&utf16));
    assert_eq!(parse_tweets(&utf16, "https://nitter.net", "https://x.com").err(), Some(FeedError::Unsupported));
    unsupported("<!DOCTYPE rss [ <!ENTITY x \"y\"> ]><rss></rss>");
    unsupported("<rss><author>&#x;</author></rss>");
    unsupported("{\"version\": \"https://jsonfeed.org/version/1\", \"title\": \"\\u00e9\", \"items\": []}");
}

#[test]
fn document_types_and_json_feeds_pass() {
    let doc = r#"<?xml version="1.0"?>
<!DOCTYPE rss PUBLIC "-//Netscape Communications//DTD RSS 0.91//EN" "http://my.netscape.com/publish/formats/rss-0.91.dtd">
<rss version="2.0"><channel><title>t</title><item><guid>d1</guid><link>https://nitter.net/u/status/5</link></item></channel></rss>"#;
    assert!(plain_feed(doc.as_bytes()));
    let tweets = parse_tweets(doc.as_bytes(), "https://nitter.net", "https://x.com").unwrap();
    assert_eq!(pairs(&tweets), vec![("d1".to_string(), "https://x.com/u/status/5".to_string())]);

    let json = r#"{"version": "https://jsonfeed.org/version/1.1", "title": "t", "items": [{"id": "j1", "url": "https://nitter.net/u/status/6", "content_text": "hi"}]}"#;
    assert!(plain_feed(json.as_bytes()));
    let tweets = parse_tweets(json.as_bytes(), "https://nitter.net", "https://x.com").unwrap();
    assert_eq!(pairs(&tweets), vec![("j1".to_string(), "https://x.com/u/status/6".to_string())]);
}

#[test]
fn references_and_mentions_outside_names_pass() {
    assert!(plain_feed(b"<rss><title>a &#39;b&#x27; &#8230; (@c) &amp; x@y.zz &#64;</title></rss>"));
    assert!(plain_feed("<rss><title>a &#39;b&#x27; &#8230; (@c) &amp; \u{e9}@d</title></rss>".as_bytes()));
    assert!(plain_feed(b"<rss><a>@x</a><!-- c --><![CDATA[ @y ]]></rss>"));
    assert!(plain_feed(b""));
    assert!(plain_feed(b"not a feed"));
}
