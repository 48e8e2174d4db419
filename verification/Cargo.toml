[package]
name = "diskwatch"
version = "0.2.0"
edition = "2021"
publish = false

[dependencies]
anyhow = "1"
chrono = "0.4"
clap = { version = "4", features = ["derive"] }
crossterm = "0.28"
notify = "7"
ratatui = "0.29"
serde_json = "1"
sysinfo = "0.33"
unicode-width = "0.2"
