[package]
name = "pastoid"
version = "0.1.0"
edition = "2021"
publish = false

[dependencies]
chrono = "0.4"
uuid = { version = "1", features = ["v4"] }
serde = { version = "1", features = ["derive"] }
serde_json = "1"
log = "0.4"
dirs = "*"
simplelog = "0.12"
arboard = "3"
enigo = "*"
rust-i18n = "3"
