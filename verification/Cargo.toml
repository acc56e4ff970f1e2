[package]
name = "toolbelt"
version = "0.1.0"
edition = "2021"
publish = false

[dependencies]
anyhow = "1"
chrono = "0.4"
clap = { version = "4", features = ["derive"] }
colored = "2"
crossterm = "0.28"
oxc = "0.36"
ratatui = "0.29"
regex = "1"
serde = { version = "1", features = ["derive"] }
serde_yaml = "0.9"
