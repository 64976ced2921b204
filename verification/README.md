# yuh_bot

A Discord bot for a World of Warcraft guild, written with `poise`: a gambling
game with a lobby, WoWAudit raid and absence listings, WowUtils droptimizer
submissions, a Nitter-to-Discord tweet poller, a clips channel that only keeps
videos, personal officer channels for raiders and trials, and a weekly raid
notes forum post.

Layout:

- `src/` is the library, verified with Verus: the rules and state machines of
  the bot (the gambling lobby and game, the tweet poller, the weekly post
  schedule, configuration parsing, personal channel planning, clip checks,
  role checks) and the texts it posts, each with its contract. Feed documents
  are checked (`plain_feed`) before they reach `feed_rs`, which panics on some
  inputs; the check refuses the texts and values that can reach those panics
  (and a few harmless ones near them), not whole kinds of feeds.
- `app/` is the program around it: Discord and HTTP I/O through `poise`,
  `reqwest` and `tokio`, environment reading, JSON decoding, logging.
- `tests/` runs the library on concrete values.

Configuration: `DISCORD_TOKEN`, `WOWAUDIT_TOKEN`, `MOD_ROLE_ID` and
`RAIDER_ROLE_ID` are required; `BOT_NAME`, `BART_TOKEN`, `CLIPS_CHANNEL_IDS`
and `LOG_LEVEL` are optional. The tweet poller starts only when
`NITTER_BASE_URL`, `TWEET_CHANNEL_ID` and `TWEET_POLL_TIME` are all set
(`X_BASE_URL` and `TWITTER_USER_IDS` are optional).
