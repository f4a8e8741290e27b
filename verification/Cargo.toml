[package]
name = "gif_braille_tui"
version = "0.1.0"
edition = "2021"
publish = false

[dependencies]
image = { version = "0.25", default-features = false, features = ["gif"] }
crossterm = "0.28"
ratatui = "0.29"
