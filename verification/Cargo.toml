[package]
name = "scoreboard"
version = "0.1.0"
edition = "2021"
publish = false

[dependencies]
log = "0.4"
mysql = "*"
serde = { version = "1", features = ["derive"] }
