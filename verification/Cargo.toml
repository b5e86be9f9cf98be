[package]
name = "win_etw_tracing"
version = "0.1.0"
edition = "2021"
publish = false

[dependencies]
tracing = "=0.1.44"
tracing-log = "=0.2.0"
tracing-subscriber = "=0.3.23"
win_etw_metadata = "=0.1.3"
win_etw_provider = { version = "=0.1.14", features = ["uuid"] }

[dev-dependencies]
anyhow = "=1.0.104"
bytes = "=1.12.1"
