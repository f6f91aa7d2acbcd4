[package]
name = "mhost"
version = "0.1.0"
edition = "2021"
publish = false

[dependencies]
uuid = { version = "1", features = ["v4"] }
chrono = "0.4"
lru = "0.12"
hickory-proto = "0.24"
hickory-resolver = { version = "0.24", features = ["tokio-runtime", "system-config"] }
parking_lot = "0.12"
tokio = { version = "1", features = ["full"] }
tracing = "0.1"
log = "0.4"
dirs = "5"
tempfile = "3"
thiserror = "1"
serde = { version = "1", features = ["derive"] }
serde_json = "1"
libc = "0.2"
