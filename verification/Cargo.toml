[package]
name = "flux"
version = "0.1.0"
edition = "2021"
publish = false

[dependencies]
anyhow = "1"
clap = { version = "4", features = ["derive"] }
crossterm = "*"
ctrlc = "3"
notify = "8"
ratatui = "*"
serde = { version = "1", features = ["derive"] }
serde_json = "1"
signal-hook = "*"
similar = "2"
walkdir = "2"
