[package]
name = "movebeam"
version = "0.1.0"
edition = "2021"
publish = false

[dependencies]
anyhow = "1"
base64 = "0.22"
clap = { version = "4", features = ["derive"] }
crossbeam-channel = "0.5"
dirs = "5"
notify-rust = "4"
parking_lot = "0.12"
serde = { version = "1", features = ["derive"] }
signal-hook = "0.3"
toml = "0.8"
tracing = "0.1"
tracing-subscriber = { version = "0.3", features = ["env-filter"] }
x11rb = { version = "0.13", features = ["record"] }
