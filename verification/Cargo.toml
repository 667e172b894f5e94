[package]
name = "message_tail"
version = "0.1.0"
edition = "2021"
publish = false

[dependencies]
postgres = { version = "*", features = ["with-serde_json-1", "with-chrono-0_4"] }
chrono = "*"
clap = { version = "*", features = ["derive"] }
serde_json = "*"
