[package]
name = "muxi_rust"
version = "0.1.0"
edition = "2021"
publish = false

[dependencies]
hmac = "0.12"
sha2 = "0.10"
base64 = "0.22"
serde = { version = "1", features = ["derive"] }
serde_json = "1"
reqwest = { version = "0.12", default-features = false, features = ["json", "stream"] }
futures = "0.3"
async-stream = "0.3"
thiserror = "1"
dirs = "5"
uuid = { version = "1", features = ["v4"] }
