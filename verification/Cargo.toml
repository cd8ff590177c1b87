[package]
name = "mc_translator"
version = "0.1.0"
edition = "2021"
publish = false

[dependencies]
aho-corasick = "=1.1.5"
hanconv = "=0.5.1"
serde = { version = "=1.0.229", features = ["derive"] }
serde_json = "=1.0.154"
keyring = { version = "=3.6.3", features = ["apple-native", "windows-native", "linux-native"] }
zip = { version = "2", default-features = false, features = ["deflate"] }
