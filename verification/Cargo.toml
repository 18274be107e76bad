[package]
name = "desk"
version = "0.1.0"
edition = "2021"
publish = false

[dependencies]
anyhow = "1"
arc-swap = "1"
axum = { version = "0.7", features = ["json", "query", "tokio", "http1"], default-features = false }
bcrypt = "0.15"
chrono = { version = "0.4", features = ["serde"] }
crossbeam-queue = "0.3"
dashmap = "6"
fastwebsockets = { version = "0.8", features = ["upgrade", "unstable-split", "with_axum"] }
futures = "0.3"
hmac = "0.12"
hyper = { version = "1", features = ["http1", "server"] }
hyper-util = { version = "0.1", features = ["tokio"] }
jsonwebtoken = "9"
parking_lot = "0.12"
redis = { version = "0.25", features = ["tokio-comp"] }
reqwest = { version = "0.12", default-features = false, features = ["json", "rustls-tls"] }
serde = { version = "1", features = ["derive"] }
serde_json = "1"
sha2 = "0.10"
smallvec = "1"
sqlx = { version = "0.7", default-features = false, features = ["runtime-tokio", "postgres", "chrono", "json"] }
tokio = { version = "1", features = ["full"] }
tracing = "0.1"
