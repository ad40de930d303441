[package]
name = "twitch_logger"
version = "0.1.0"
edition = "2021"
publish = false

[dependencies]
chrono = "=0.4.45"
async-trait = "=0.1.92"
log = "=0.4.34"
pretty_env_logger = "=0.5.0"
serde = { version = "=1.0.229", features = ["derive"] }
config = "=0.15.27"
dirs = "=7.0.0"
tokio = { version = "=1.53.2", features = ["macros", "rt-multi-thread", "sync", "time"] }
sqlx = { version = "=0.9.0", default-features = false, features = ["runtime-tokio", "postgres"] }
twitch-irc = { version = "=6.1.3", default-features = false, features = ["refreshing-token-rustls-webpki-roots", "transport-tcp-rustls-webpki-roots"] }
