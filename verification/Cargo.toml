[package]
name = "pg_rust"
version = "0.1.0"
edition = "2021"
publish = false

[dependencies]
bincode = { version = "2", features = ["serde"] }
crc32fast = "1"
parking_lot = "0.12"
serde = { version = "1", features = ["derive"] }
smallvec = "1"
thiserror = "2"
tracing = "0.1"
