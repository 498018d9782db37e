[package]
name = "netrail"
version = "1.1.0"
edition = "2021"
publish = false

[dependencies]
url = "2"
sha2 = "0.10"
base64 = "0.22"
fernet = "0.2"
regex = "1"
scraper = "0.20"
serde = { version = "1", features = ["derive"] }
serde_json = "1"
axum = "0.8"
tokio = { version = "1", features = ["rt-multi-thread", "macros", "net", "signal", "fs", "time"] }
reqwest = { version = "0.12", default-features = false, features = ["json", "blocking", "rustls-tls"] }
rusqlite = { version = "0.32", features = ["bundled"] }
tower-http = { version = "0.6", features = ["fs"] }
dirs = "5"
keyring = "3"
which = "6"
chrono = "0.4"
parking_lot = "0.12"
once_cell = "1"
tracing = "0.1"
tracing-subscriber = { version = "0.3", features = ["env-filter", "json"] }
futures = "0.3"
urlencoding = "2"
http = "1"
thiserror = "2"
