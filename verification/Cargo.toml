[package]
name = "unified_mail"
version = "0.1.0"
edition = "2021"
publish = false

[dependencies]
anyhow = "1"
chrono = "0.4"
dirs = "5"
html-escape = "0.2"
imap = "2.4"
keyring = { version = "2", default-features = false }
lettre = "0.11"
mail-parser = "0.9"
native-tls = "0.2"
rusqlite = "0.31"
serde = { version = "1", features = ["derive"] }
serde_json = "1"
thiserror = "1"
uuid = { version = "1", features = ["v4"] }
