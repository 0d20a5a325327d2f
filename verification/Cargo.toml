[package]
name = "duplicate_finder"
version = "0.1.0"
edition = "2021"
publish = false

[dependencies]
md-5 = "0.10"
rayon = "1"
ratatui = "0.29"
crossterm = "0.28"
color-eyre = "0.6"
rfd = { version = "0.15", default-features = false, features = ["xdg-portal", "tokio"] }
