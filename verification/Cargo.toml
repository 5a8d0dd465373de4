[package]
name = "gemini_bridge"
version = "0.1.0"
edition = "2021"
publish = false

[dependencies]
serde_json = "*"
base64 = "*"
uuid = { version = "*", features = ["v4"] }
actix-web = "*"
awc = { version = "*", features = ["rustls-0_23"] }
clap = { version = "*", features = ["derive"] }
env_logger = "*"
log = "*"
rustls = "*"
rustls-platform-verifier = "*"
futures-util = "*"
