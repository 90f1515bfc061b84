[package]
name = "hongbot_rs"
version = "0.1.0"
edition = "2021"
publish = false

[dependencies]
anyhow = "1"
bincode = "1.3"
config = { version = "0.13", default-features = false, features = ["toml"] }
curl = "0.4"
dotenvy = "0.15"
env_logger = "0.10"
log = "0.4"
regex = "1"
serde = { version = "1", features = ["derive"] }
thiserror = "1"
tiny_http = "0.12"
