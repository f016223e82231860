[package]
name = "redis_nav"
version = "0.1.0"
edition = "2021"
publish = false

[dependencies]
anyhow = "*"
clap = { version = "*", features = ["derive"] }
crossterm = "*"
dirs = "*"
ratatui = "*"
redis = { version = "*", features = ["tokio-comp"] }
serde = { version = "*", features = ["derive"] }
serde_json = "*"
tokio = { version = "*", features = ["macros", "rt-multi-thread", "sync", "time"] }
toml = "*"
