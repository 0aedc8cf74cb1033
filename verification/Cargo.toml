[package]
name = "yanklog_core"
version = "0.1.0"
edition = "2021"
publish = false

[dependencies]
argon2 = "0.5"
chacha20poly1305 = "0.10"
rand = "0.8"
hex = "0.4"
chrono = "0.4"
dirs = "5"
serde = { version = "1", features = ["derive"] }
serde_json = "1"
toml = "0.8"
rusqlite = { version = "0.31", features = ["bundled-sqlcipher"] }
arboard = { version = "3", default-features = false }
thiserror = "1"
uniffi = "0.28"
gtk4 = "0.9"
libadwaita = "0.7"
ksni = { version = "0.3", features = ["blocking"] }
