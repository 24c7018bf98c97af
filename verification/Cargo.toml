[package]
name = "blockchat"
version = "0.1.0"
edition = "2021"
publish = false

[dependencies]
anyhow = "1"
bincode = "1"
futures = "0.3"
lazy_static = "1"
log = "0.4"
pico-args = "0.5"
rand = "0.8"
rsa = "0.5"
rust-crypto = "0.2"
sha3 = "0.10"
serde = { version = "1", features = ["derive"] }
serde_json = "1"
tokio = { version = "1", features = ["full"] }
toml = "0.5"
tracing = "0.1"
tracing-subscriber = { version = "0.3", features = ["env-filter"] }
