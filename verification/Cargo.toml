[package]
name = "xnetify"
version = "0.1.0"
edition = "2021"
publish = false

[dependencies]
chrono = "0.4"
regex = "1"
serde = { version = "1", features = ["derive"] }
serde_json = "1"
log = "0.4"
dirs = "5"
reqwest = { version = "0.12", features = ["socks"] }
tokio = { version = "1", features = ["full"] }
tun = { version = "0.8", features = ["async"] }
