[package]
name = "workshadow"
version = "0.1.0"
edition = "2021"
publish = false

[dependencies]
aes-gcm = "0.10"
sha2 = "0.10"
regex = "1"
serde = { version = "1", features = ["derive"] }
serde_json = "1"
toml = "*"
dirs = "*"
chrono = "0.4"
log = "0.4"
env_logger = "*"
tempfile = "3"
image = { version = "*", default-features = false, features = ["png"] }
keyring = "*"
rusqlite = { version = "*", features = ["bundled"] }
tantivy = "*"
ffmpeg-next = "*"
