[package]
name = "jarvis"
version = "0.1.0"
edition = "2021"
publish = false

[dependencies]
serde = { version = "1", features = ["derive"] }
serde_json = "1"
sha2 = "0.10"
hex = "0.4"
thiserror = "1"
async-trait = "0.1"
futures-util = "0.3"
tokio = { version = "1", features = ["rt", "sync", "time"] }
reqwest = { version = "0.12", default-features = false, features = ["json", "stream"] }
zip = { version = "2", default-features = false, features = ["deflate"] }
keyring = "3"
