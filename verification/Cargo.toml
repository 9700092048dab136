[package]
name = "giff"
version = "0.1.0"
edition = "2021"
publish = false

[dependencies]
regex = "1"
serde_json = "1"
ureq = { version = "2", default-features = false }
ratatui = "0.30"
crossterm = "0.29"
