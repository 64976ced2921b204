//! The verified core of a Discord bot for a World of Warcraft guild: the
//! gambling lobby and game, the tweet poller, the weekly raid notes schedule,
//! configuration parsing, personal officer channels, clip checks, role checks,
//! WoWAudit listings, and the texts the bot posts.

pub mod checks;
pub mod clips;
pub mod config;
pub mod gambling;
pub mod officer_channels;
pub mod plain_feed;
pub mod raid_notes;
pub mod raids;
pub mod text;
pub mod twitter;
