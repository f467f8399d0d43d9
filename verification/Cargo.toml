[package]
name = "horcrux"
version = "0.1.0"
edition = "2021"
publish = false

[dependencies]
base64 = "*"
sha256 = "*"
sodiumoxide = "*"
serde = { version = "*", features = ["derive"] }
serde_json = "*"
log = "*"
env_logger = "*"
futures = "*"
ipfs-api = "*"
steganography = "*"
tokio = { version = "*", features = ["full"] }
