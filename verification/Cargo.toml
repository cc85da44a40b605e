[package]
name = "filemover"
version = "0.1.0"
edition = "2021"
publish = false

[dependencies]
chrono = "*"
globset = "*"
regex = "*"
serde = { version = "*", features = ["derive"] }
serde_json = "*"
unicode-normalization = "*"
