[package]
name = "sui_archival"
version = "0.1.0"
edition = "2021"
publish = false

[dependencies]
anyhow = "1"
backoff = { version = "0.4", features = ["tokio"] }
byteorder = "=1.4.3"
bytes = "1"
futures = "0.3"
integer-encoding = "=3.0.4"
object_store = "0.7.1"
tokio = { version = "1", features = ["sync", "time", "rt", "macros"] }
tracing = "0.1"
zstd = "=0.12.4"
