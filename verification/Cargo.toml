[package]
name = "taskboard"
version = "0.1.0"
edition = "2021"
publish = false

[dependencies]
chrono = "0.4"
crossterm = "0.28"
ratatui = "0.28"
tui-textarea = "0.6"
notify = "6"
serde = { version = "1", features = ["derive"] }
toml = "0.8"
dirs = "5"
rustyline = "14"
env_logger = "0.11"
log = "0.4"
