[package]
name = "taskboard"
version = "0.1.0"
edition = "2021"
publish = false

[dependencies]
anyhow = "1"
crossterm = "0.25"
lazy_static = "1"
refinery = { version = "*", features = ["rusqlite"] }
rusqlite = "*"
tui = "0.19"
