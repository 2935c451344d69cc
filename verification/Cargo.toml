[package]
name = "snapcode"
version = "0.1.0"
edition = "2021"
publish = false

[dependencies]
mail-parser = "=0.11.9"
serde = { version = "=1.0.229", features = ["derive"] }
serde_json = "=1.0.154"
rusqlite = { version = "=0.41.1", features = ["bundled"] }
imap = { version = "=2.4.1", default-features = false }
rustls = { version = "=0.23.46", default-features = false, features = ["ring", "std", "tls12", "logging"] }
rustls-native-certs = "=0.8.5"

[dev-dependencies]
regex = "=1.13.1"
