use yuh_bot::config::{is_whitespace, parse_id_list, parse_name_list, parse_u64, Config, ConfigError, EnvVar, EnvVars, LogLevel};

fn s(v: &str) -> Option<String> {
    Some(v.to_string())
}

fn full() -> EnvVars {
    EnvVars {
        discord_token: s("tok"),
        wow_audit_token: s("audit"),
        bot_name: None,
        mod_role_id: s("11"),
        raider_role_id: s("22"),
        bart_token: None,
        clips_channel_ids: None,
        log_level: None,
        nitter_base_url: None,
        x_base_url: None,
        twitter_user_ids: None,
        tweet_channel_id: None,
        tweet_poll_time: None,
    }
}

fn with_tweets() -> EnvVars {
    let mut v = full();
    v.nitter_base_url = s("https://nitter.net");
    v.twitter_user_ids = s(" alice, bob ,,");
    v.tweet_channel_id = s("33");
    v.tweet_poll_time = s("60");
    v
}

fn err(v: EnvVars) -> ConfigError {
    match Config::from_vars(&v) {
        Err(e) => e,
        Ok(_) => panic!("expected an error"),
    }
}

#[test]
fn parse_u64_like_std() {
    for text in ["0", "42", "+7", "007", "18446744073709551615", "18446744073709551616", "", "+", "-1", " 1", "1a"] {
        let chars: Vec<char> = text.chars().collect();
        assert_eq!(parse_u64(&chars), text.parse::<u64>().ok(), "{:?}", text);
    }
}

#[test]
fn id_lists() {
    assert_eq!(parse_id_list(""), Some(vec![]));
    assert_eq!(parse_id_list(" 1, 2,,1\t"), Some(vec![1, 2]));
    assert_eq!(parse_id_list("1, "), None);
    assert_eq!(parse_id_list("1,x"), None);
}

#[test]
fn name_lists() {
    assert_eq!(parse_name_list(" alice, bob ,,\u{3000}"), vec!["alice".to_string(), "bob".to_string()]);
    assert_eq!(parse_name_list(""), Vec::<String>::new());
}

#[test]
fn defaults_apply() {
    let c = Config::from_vars(&full()).unwrap();
    assert_eq!(c.discord_token, "tok");
    assert_eq!(c.wow_audit_token, "audit");
    assert_eq!(c.bot_name, "gulp-bot");
    assert_eq!(c.mod_role_id, 11);
    assert_eq!(c.raider_role_id, 22);
    assert_eq!(c.bart_token, "");
    assert!(c.clips_channel_ids.is_empty());
    assert_eq!(c.log_level, LogLevel::Info);
    assert_eq!(c.nitter_base_url, None);
    assert_eq!(c.x_base_url, "https://x.com");
    assert!(c.twitter_user_ids.is_empty());
    assert_eq!(c.tweet_target_channel_id, None);
    assert_eq!(c.tweet_poll_time, None);
}

#[test]
fn required_variables_alone_suffice() {
    let v = EnvVars {
        discord_token: s("d"),
        wow_audit_token: s("w"),
        bot_name: None,
        mod_role_id: s("1"),
        raider_role_id: s("2"),
        bart_token: None,
        clips_channel_ids: s("10, 20,"),
        log_level: None,
        nitter_base_url: None,
        x_base_url: None,
        twitter_user_ids: None,
        tweet_channel_id: None,
        tweet_poll_time: None,
    };
    let c = Config::from_vars(&v).unwrap();
    assert_eq!(c.clips_channel_ids, vec![10, 20]);
    assert_eq!(c.mod_role_id, 1);
    assert_eq!(c.raider_role_id, 2);
    assert_eq!(c.bot_name, "gulp-bot");
    assert_eq!(c.bart_token, "");
    assert_eq!(c.log_level, LogLevel::Info);
}

#[test]
fn tweet_settings_are_read_when_set() {
    let c = Config::from_vars(&with_tweets()).unwrap();
    assert_eq!(c.nitter_base_url, Some("https://nitter.net".to_string()));
    assert_eq!(c.x_base_url, "https://x.com");
    assert_eq!(c.twitter_user_ids, vec!["alice".to_string(), "bob".to_string()]);
    assert_eq!(c.tweet_target_channel_id, Some(33));
    assert_eq!(c.tweet_poll_time, Some(60));
}

#[test]
fn explicit_values_win() {
    let mut v = full();
    v.bot_name = s("kail");
    v.bart_token = s("secret");
    v.clips_channel_ids = s("5,6");
    v.log_level = s("DeBuG");
    v.x_base_url = s("https://twitter.com");
    let c = Config::from_vars(&v).unwrap();
    assert_eq!(c.bot_name, "kail");
    assert_eq!(c.bart_token, "secret");
    assert_eq!(c.clips_channel_ids, vec![5, 6]);
    assert_eq!(c.log_level, LogLevel::Debug);
    assert_eq!(c.x_base_url, "https://twitter.com");
}

#[test]
fn log_levels_follow_tracing() {
    let cases = [
        ("0", LogLevel::Off),
        ("5", LogLevel::Trace),
        ("+2", LogLevel::Warn),
        ("", LogLevel::Error),
        ("off", LogLevel::Off),
        ("WARN", LogLevel::Warn),
        ("trace", LogLevel::Trace),
    ];
    for (text, level) in cases {
        let mut v = full();
        v.log_level = s(text);
        assert_eq!(Config::from_vars(&v).unwrap().log_level, level, "{:?}", text);
    }
    let mut v = full();
    v.log_level = s("6");
    assert_eq!(err(v), ConfigError::Invalid(EnvVar::LogLevel));
}

#[test]
fn missing_and_invalid_variables() {
    let mut v = full();
    v.discord_token = None;
    assert_eq!(err(v), ConfigError::Missing(EnvVar::DiscordToken));
    let mut v = full();
    v.wow_audit_token = None;
    assert_eq!(err(v), ConfigError::Missing(EnvVar::WowAuditToken));
    let mut v = full();
    v.mod_role_id = s("abc");
    assert_eq!(err(v), ConfigError::Invalid(EnvVar::ModRoleId));
    let mut v = full();
    v.mod_role_id = None;
    assert_eq!(err(v), ConfigError::Missing(EnvVar::ModRoleId));
    let mut v = full();
    v.raider_role_id = s(" 1");
    assert_eq!(err(v), ConfigError::Invalid(EnvVar::RaiderRoleId));
    let mut v = full();
    v.raider_role_id = None;
    assert_eq!(err(v), ConfigError::Missing(EnvVar::RaiderRoleId));
    let mut v = full();
    v.clips_channel_ids = s("1, ");
    assert_eq!(err(v), ConfigError::Invalid(EnvVar::ClipsChannelIds));
    let mut v = with_tweets();
    v.tweet_channel_id = s("x");
    assert_eq!(err(v), ConfigError::Invalid(EnvVar::TweetChannelId));
    let mut v = with_tweets();
    v.tweet_channel_id = s("0");
    assert_eq!(err(v), ConfigError::Invalid(EnvVar::TweetChannelId));
    let mut v = with_tweets();
    v.tweet_poll_time = s("0");
    assert_eq!(err(v), ConfigError::Invalid(EnvVar::TweetPollTime));
    let mut v = with_tweets();
    v.tweet_poll_time = s("soon");
    assert_eq!(err(v), ConfigError::Invalid(EnvVar::TweetPollTime));
}

#[test]
fn zero_identifiers_are_invalid() {
    let mut v = full();
    v.mod_role_id = s("0");
    assert_eq!(err(v), ConfigError::Invalid(EnvVar::ModRoleId));
    let mut v = full();
    v.raider_role_id = s("0");
    assert_eq!(err(v), ConfigError::Invalid(EnvVar::RaiderRoleId));
    let mut v = full();
    v.clips_channel_ids = s("5,0");
    assert_eq!(err(v), ConfigError::Invalid(EnvVar::ClipsChannelIds));
    assert_eq!(parse_id_list("0"), None);
}

#[test]
fn whitespace_matches_std() {
    for c in (0u32..=0x10FFFF).filter_map(char::from_u32) {
        assert_eq!(is_whitespace(c), c.is_whitespace(), "{:?}", c);
    }
}

#[test]
fn first_problem_is_reported() {
    let mut v = full();
    v.discord_token = None;
    v.mod_role_id = s("bad");
    assert_eq!(err(v), ConfigError::Missing(EnvVar::DiscordToken));
}

#[test]
fn variable_names() {
    assert_eq!(EnvVar::DiscordToken.name(), "DISCORD_TOKEN");
    assert_eq!(EnvVar::WowAuditToken.name(), "WOWAUDIT_TOKEN");
    assert_eq!(EnvVar::ClipsChannelIds.name(), "CLIPS_CHANNEL_IDS");
    assert_eq!(EnvVar::TweetPollTime.name(), "TWEET_POLL_TIME");
}
