[package]
name = "v2rayv"
version = "0.1.0"
edition = "2021"
publish = false

[dependencies]
base64 = "0.22"
keyring = { version = "3", features = ["linux-native"] }
libc = "0.2"
log = "0.4"
reqwest = { version = "0.12", default-features = false, features = ["blocking", "rustls-tls"] }
serde = { version = "1", features = ["derive"] }
serde_json = "1"
uuid = { version = "1", features = ["v4"] }
