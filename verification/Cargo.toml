[package]
name = "kate_bot"
version = "0.1.0"
edition = "2021"
publish = false

[dependencies]
rand = "0.9"
regex = "1"
urlencoding = "2"
poise = "0.6"
tokio = { version = "1", features = ["macros", "rt-multi-thread", "sync", "time"] }
dashmap = "6"
serde = { version = "1", features = ["derive"] }
serde_json = "1"
csv = "1"
strum = "0.27"
strum_macros = "0.27"
lazy_static = "1"
uuid = { version = "1", features = ["v4"] }
image = { version = "0.25", default-features = false, features = ["png"] }
rusttype = "0.9"
tracing = "0.1"
tracing-subscriber = { version = "0.3", features = ["env-filter"] }
dotenvy = "0.15"
thiserror = "2"
