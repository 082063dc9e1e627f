[package]
name = "catnap"
version = "0.7.0"
edition = "2021"
publish = false

[dependencies]
http = "1"
percent-encoding = "2"
url = "2"
reqwest = { version = "0.12", default-features = false, features = ["json", "rustls-tls"] }
serde = { version = "1", features = ["derive"] }
serde_json = "1"
quick-xml = { version = "*", features = ["serialize"] }
tracing = "0.1"
