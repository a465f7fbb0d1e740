[package]
name = "yggdrasil"
version = "0.1.0"
edition = "2021"
publish = false

[dependencies]
serde = { version = "=1.0.229", features = ["derive"] }
serde_json = "=1.0.154"
sha2 = "=0.10.9"
chrono = { version = "0.4", default-features = false, features = ["std", "now", "serde"] }
rand = "0.8"
serde_yaml = "0.9"
thiserror = "1"
