[package]
name = "mbell"
version = "0.1.0"
edition = "2021"
publish = false

[dependencies]
tokio = { version = "*", features = ["full"] }
serde = { version = "*", features = ["derive"] }
serde_json = "*"
toml = "*"
chrono = "*"
directories = "*"
clap = { version = "*", features = ["derive"] }
daemonize = "*"
thiserror = "*"
tracing = "*"
tracing-subscriber = { version = "*", features = ["env-filter"] }
libc = "*"
futures-util = "*"
zbus = "*"
rodio = "*"
