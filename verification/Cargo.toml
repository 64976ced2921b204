[package]
name = "yuh_bot"
version = "0.1.0"
edition = "2021"
publish = false

[dependencies]
chrono = "0.4"
chrono-tz = "*"
feed-rs = "*"
log = "0.4"
poise = "0.6"
rand = "0.9"
reqwest = { version = "0.12", features = ["json"] }
serde = { version = "1", features = ["derive"] }
tokio = { version = "1", features = ["full"] }
tracing-stackdriver = "*"
tracing-subscriber = "0.3"
