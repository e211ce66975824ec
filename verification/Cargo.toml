[package]
name = "vault_sync"
version = "0.4.0"
edition = "2021"
publish = false

[dependencies]
unicode-normalization = "=0.1.26"
sha2 = "=0.10.9"
hex = "=0.4.3"
base64 = "=0.22.1"
serde = { version = "=1.0.229", features = ["derive"] }
serde_json = { version = "=1.0.154", features = ["float_roundtrip"] }
serde_yaml = "=0.9.34"
chrono = { version = "=0.4.45", features = ["serde"] }
tempfile = "=3.27.0"
thiserror = "=1.0.69"
tracing = "=0.1.44"
tokio = { version = "=1.54.1", features = ["rt-multi-thread", "macros", "sync", "time"] }
futures = "=0.3.34"
anyhow = "=1.0.104"
dunce = "=1.0.5"
eventsource-client = "=0.13.0"
