[package]
name = "sysinfo_exporter"
version = "0.1.0"
edition = "2021"
publish = false

[dependencies]
anyhow = "1"
base64 = "=0.22.1"
clap = { version = "4", features = ["derive"] }
dotenv = "0.15"
figment = { version = "0.10", features = ["toml", "env"] }
prometheus = "=0.14.0"
prometheus-reqwest-remote-write = "=0.5.0"
reqwest = "=0.13.5"
serde = { version = "1", features = ["derive"] }
sysinfo = "=0.39.6"
tokio = { version = "1", features = ["macros", "rt-multi-thread", "sync", "time"] }
tracing = "0.1"
tracing-subscriber = "0.3"
