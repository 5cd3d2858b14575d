[package]
name = "cleanix"
version = "0.1.0"
edition = "2021"
publish = false

[dependencies]
anyhow = "1"
crossterm = "*"
libc = "0.2"
ratatui = "*"
serde = { version = "1", features = ["derive"] }
serde_json = "1"
signal-hook = "0.3"
time = { version = "0.3", features = ["parsing"] }
toml = "*"
walkdir = "2"

[dev-dependencies]
tempfile = "3"
