[package]
name = "tui"
version = "0.1.0"
edition = "2021"
publish = false

[dependencies]
crossterm = "*"
flate2 = "1"
libc = "0.2"
serde = { version = "1", features = ["derive"] }
serde_json = "1"
sha2 = "0.10"
similar = "2"
syntect = { version = "5", default-features = false, features = ["default-fancy"] }
two-face = { version = "*", default-features = false, features = ["syntect-fancy"] }
unicode-width = "0.2"
