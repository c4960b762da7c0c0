[package]
name = "timeagent"
version = "0.1.0"
edition = "2021"
publish = false

[dependencies]
chrono = "0.4"
chrono-tz = "0.10"
iana-time-zone = "0.1"
serde = { version = "1", features = ["derive"] }
serde_json = "1"
anyhow = "1"
async-channel = "2"
dirs = "5"
tokio = { version = "1", features = ["rt-multi-thread", "time", "sync", "macros"] }
reqwest = { version = "0.12", default-features = false, features = ["json", "rustls-tls"] }
keyring = { version = "3", default-features = false, features = ["linux-native"] }
gtk4 = { version = "0.9", default-features = false, features = ["v4_10"] }
ksni = "0.2"
libpulse-binding = "2"
