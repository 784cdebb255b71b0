[package]
name = "orbit"
version = "0.1.0"
edition = "2021"
publish = false

[dependencies]
anyhow = "1"
async-trait = "0.1"
axum = "0.7"
bollard = "0.18"
clap = { version = "4", features = ["derive", "env"] }
dashmap = "6"
futures = "0.3"
humantime-serde = "1"
notify = "7"
notify-debouncer-full = "0.4"
pingora = { version = "0.4", features = ["lb", "proxy"] }
pingora-load-balancing = "0.4"
prometheus = "0.13"
regex = "1"
rustc-hash = "2"
serde = { version = "1", features = ["derive"] }
serde_json = "1"
serde_yaml = "0.9"
slog = { version = "2", features = ["max_level_trace", "release_max_level_trace"] }
slog-async = "2"
slog-json = "2"
slog-scope = "4"
tempfile = "3"
thiserror = "1"
tokio = { version = "1", features = ["full"] }
uuid = { version = "1", features = ["v4", "serde"] }
validator = { version = "0.18", features = ["derive"] }
walkdir = "2"
