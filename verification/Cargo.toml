[package]
name = "loki_inspect"
version = "0.1.0"
edition = "2021"
publish = false

[dependencies]
anyhow = "1"
atty = "0.2"
base64 = "0.13"
chrono = { version = "0.4", features = ["serde"] }
clap = { version = "4", features = ["derive", "env"] }
flate2 = "1"
humantime = "2"
integer-encoding = "3"
nut = "*"
reqwest = { version = "0.11", default-features = false, features = ["blocking"] }
ring = "0.17"
serde = { version = "1", features = ["derive"] }
serde_json = "1"
snap = "1"
tracing = "0.1"
tracing-subscriber = "0.3"
zstd = "0.12"
