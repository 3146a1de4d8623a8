[package]
name = "fnug"
version = "0.0.27"
edition = "2021"
publish = false

[dependencies]
anstyle = "1"
regex = "1"
regex-cache = "0.2"
uuid = { version = "1", features = ["v4"] }
serde = { version = "1", features = ["derive"] }
serde_json = "1"
serde_yaml = "0.9"
clap = { version = "4", features = ["derive"] }
crossterm = { version = "*", features = ["event-stream"] }
ratatui = "*"
tokio = { version = "1", features = ["full"] }
futures = "0.3"
git2 = { version = "*", default-features = false }
notify = "*"
notify-debouncer-full = "*"
portable-pty = "*"
vt100 = "*"
parking_lot = "0.12"
crossbeam-channel = "0.5"
log = "0.4"
rmcp = { version = "*", features = ["server", "transport-io", "macros"] }
schemars = "*"
