[package]
name = "vaultx"
version = "1.0.0"
edition = "2021"
publish = false

[dependencies]
ring = "0.17"
hex = "0.4"
base64 = "0.22"
urlencoding = "2"
uuid = { version = "1", features = ["v4"] }
serde = { version = "1", features = ["derive"] }
serde_json = "1"
reqwest = { version = "0.12", default-features = false, features = ["blocking", "cookies", "rustls-tls"] }
dirs = "5"
arboard = "3"
winreg = "0.52"
is_elevated = "0.1"
