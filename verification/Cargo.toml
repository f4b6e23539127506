[package]
name = "tinyspec"
version = "0.1.0"
edition = "2021"
publish = false

[dependencies]
chrono = "=0.4.45"
clap = { version = "=4.6.7", features = ["derive"] }
clap_complete = { version = "=4.6.11", features = ["unstable-dynamic"] }
crossterm = "=0.29.0"
notify = "=8.2.1"
pulldown-cmark = "=0.13.5"
pulldown-cmark-to-cmark = "=22.0.3"
ratatui = "=0.30.2"
serde = { version = "=1.0.229", features = ["derive"] }
serde_yaml = "=0.9.34"
