[package]
name = "store"
version = "0.1.0"
edition = "2021"
publish = false

[dependencies]
log = "0.4"
rocksdb = "*"
serde = { version = "1", features = ["derive"] }
tokio = { version = "1", features = ["rt", "sync"] }
