[package]
name = "jellyswarrm_proxy"
version = "0.1.0"
edition = "2021"
publish = false

[dependencies]
axum = "0.8"
chrono = "0.4"
moka = { version = "0.12", features = ["future"] }
regex = "1"
reqwest = { version = "0.12", default-features = false, features = ["json"] }
serde = { version = "1", features = ["derive"] }
serde_json = "1"
sqlx = { version = "0.8", default-features = false, features = ["runtime-tokio", "sqlite", "chrono", "macros"] }
tokio = { version = "1", features = ["rt", "sync", "macros"] }
tracing = "0.1"
url = "2"
uuid = "1"
