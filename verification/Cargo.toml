[package]
name = "herdr_sidebar"
version = "0.1.0"
edition = "2021"
publish = false

[dependencies]
crossterm = "*"
ratatui = "*"
regex = "1"
serde = { version = "1", features = ["derive"] }
serde_json = "1"
syntect = { version = "5", default-features = false, features = ["default-fancy"] }
two-face = { version = "*", default-features = false, features = ["syntect-default-fancy"] }
unicode-segmentation = "1"
