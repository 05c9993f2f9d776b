[package]
name = "hiwkhao"
version = "0.1.0"
edition = "2021"
publish = false

[dependencies]
crossterm = "0.27"
csv = "1"
iced = { version = "0.10", default-features = false }
logos = "0.13"
ratatui = "0.26"
