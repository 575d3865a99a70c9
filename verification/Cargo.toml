[package]
name = "fmtview"
version = "0.1.0"
edition = "2021"
publish = false

[dependencies]
unicode-width = "*"
anyhow = "*"
crossterm = "*"
ratatui = "*"
tempfile = "*"
