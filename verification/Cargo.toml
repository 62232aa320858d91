[package]
name = "rustzen_core"
version = "0.1.0"
edition = "2021"
publish = false

[dependencies]
chrono = "*"
ed25519-dalek = "*"
serde = { version = "*", features = ["derive"] }
serde_json = "*"
sha2 = "*"
sqlx = { version = "*", default-features = false, features = ["sqlite", "runtime-tokio", "migrate"] }
thiserror = "*"
tracing-appender = "*"
tracing-subscriber = { version = "*", features = ["env-filter"] }
walkdir = "*"
zip = { version = "*", default-features = false, features = ["deflate"] }
