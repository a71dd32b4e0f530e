[package]
name = "glow_station"
version = "0.1.0"
edition = "2021"
publish = false

[dependencies]
serialport = { version = "4", default-features = false }
nix = { version = "0.29", features = ["signal", "process"] }
crossterm = "0.28"
ratatui = "0.29"
serde = { version = "1", features = ["derive"] }
serde_yaml = "0.9"
env_logger = "0.11"
log = "0.4"
