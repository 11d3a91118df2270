[package]
name = "modem2sip"
version = "0.1.0"
edition = "2021"
publish = false

[dependencies]
anyhow = "1"
alsa = "0.9"
base64 = "0.22"
chrono = "0.4"
clap = { version = "4", features = ["derive"] }
encoding_rs = "0.8"
futures-util = "0.3"
libc = "0.2"
md-5 = "0.10"
percent-encoding = "2"
rand = "0.8"
rusqlite = { version = "*", features = ["bundled"] }
serde = { version = "1", features = ["derive"] }
serde_json = "1"
tokio = { version = "1", features = ["full"] }
toml = "0.8"
tracing = "0.1"
tracing-subscriber = { version = "0.3", features = ["env-filter"] }
zbus = { version = "5", default-features = false, features = ["tokio"] }
zvariant = "5"
