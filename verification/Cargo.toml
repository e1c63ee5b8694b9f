[package]
name = "kitsune"
version = "0.1.0"
edition = "2021"
publish = false

[dependencies]
sha2 = "0.10"
hmac = "0.12"
subtle = "2"
base64 = "0.22"
regex = "1"
uuid = { version = "1", features = ["v7"] }
serde = { version = "1", features = ["derive"] }
serde_json = "1"
thiserror = "2"
chrono = { version = "0.4", features = ["serde"] }
secrecy = "0.10"
async-trait = "0.1"
futures = "0.3"
tokio = { version = "1", features = ["rt", "macros", "time", "net", "io-util", "sync"] }
tracing = "0.1"
lettre = { version = "0.11", default-features = false, features = ["builder", "smtp-transport", "pool", "tokio1", "tokio1-rustls-tls"] }
