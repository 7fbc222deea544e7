[package]
name = "bbrr_companion"
version = "0.1.0"
edition = "2021"
publish = false

[dependencies]
base64 = "0.22"
chrono = "0.4"
keyring = { version = "3", features = ["apple-native", "windows-native", "linux-native"] }
notify = "6"
open = "5"
rand = "0.8"
reqwest = { version = "0.12", default-features = false, features = ["blocking", "json", "rustls-tls"] }
serde = { version = "1", features = ["derive"] }
serde_json = "1"
sha2 = "0.10"
urlencoding = "2"
walkdir = "2"
