[package]
name = "poem_stars"
version = "0.1.0"
edition = "2021"
publish = false

[dependencies]
rand = "*"
uuid = { version = "*", features = ["v4"] }
base64 = "*"
serde = { version = "*", features = ["derive"] }
serde_json = "*"
csv = "*"
chrono = "*"
log = "*"
log4rs = "*"
message-io = "*"
redis = "*"
