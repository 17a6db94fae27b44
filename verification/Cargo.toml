[package]
name = "notify-redis"
version = "0.1.0"
edition = "2021"
publish = false

[dependencies]
chrono = "0.4"
clap = { version = "4", features = ["derive"] }
color-eyre = "0.6"
notify = "6"
notify-debouncer-full = "0.3"
redis = "0.23"

[dev-dependencies]
serde_json = "1"
