[package]
name = "p2panda"
version = "0.1.0"
edition = "2021"
publish = false

[dependencies]
indexmap = "2"
futures-util = { version = "0.3", default-features = false, features = ["std", "sink"] }
ractor = { version = "0.15", default-features = false, features = ["tokio_runtime"] }
serde = { version = "1", features = ["derive"] }
sqlx = { version = "0.9", default-features = false, features = ["runtime-tokio", "sqlite", "migrate"] }
thiserror = "2"
tokio = { version = "1", features = ["rt", "macros", "sync", "time"] }
tokio-stream = { version = "0.1", default-features = false, features = ["sync"] }
tracing = "0.1"
