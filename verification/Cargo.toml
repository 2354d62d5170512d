[package]
name = "ups_monitor"
version = "0.1.0"
edition = "2021"
publish = false

[dependencies]
chrono = { version = "=0.4.45", features = ["serde"] }
rand = "=0.8.8"
serde = { version = "=1.0.229", features = ["derive"] }
toml = "=0.8.23"
anyhow = "=1.0.104"
hidapi = { version = "=2.6.7", default-features = false, features = ["linux-native-basic-udev"] }
axum = "=0.7.9"
tokio = { version = "=1.54.1", features = ["rt-multi-thread", "net"] }
reqwest = { version = "=0.12.28", default-features = false, features = ["blocking", "json"] }
tracing = "=0.1.44"
notify-rust = "=4.18.2"
