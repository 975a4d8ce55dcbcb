[package]
name = "dimensions"
version = "0.1.0"
edition = "2021"
publish = false

[dependencies]
anyhow = "1"
crossterm = "*"
dirs = "*"
fuzzy-matcher = "*"
ratatui = "*"
semver = "1"
serde = { version = "1", features = ["derive"] }
serde_json = "1"
unicode-width = "*"
ureq = "2"
