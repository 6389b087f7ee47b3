[package]
name = "rescrobbled"
version = "0.1.0"
edition = "2021"
publish = false

[dependencies]
anyhow = "*"
dirs = "*"
listenbrainz = "*"
mpris = "*"
rustfm-scrobble-proxy = "*"
serde = { version = "*", features = ["derive"] }
toml = "*"
tracing = "*"
tracing-subscriber = "*"

[dev-dependencies]
csv = "*"
