[package]
name = "revise"
version = "0.1.0"
edition = "2021"
publish = false

[dependencies]
chrono = "*"
fsrs = "*"
rusqlite = { version = "*", features = ["bundled", "chrono"] }
dirs = "*"
crossterm = "*"
ratatui = "*"
tui-input = "*"
