[package]
name = "rreader"
version = "0.1.0"
edition = "2021"
publish = false

[dependencies]
rss = "2"
atom_syndication = "0.12"
chrono = "0.4"
serde_json = "1"
unicode-width = "0.1"
serde = { version = "1", features = ["derive"] }
anyhow = "1"
ureq = "2"
ratatui = "0.26"
crossterm = "0.27"
dirs = "5"
open = "5"
