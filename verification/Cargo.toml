[package]
name = "pvlog_storage_core"
version = "0.1.0"
edition = "2021"
publish = false

[dependencies]
blake3 = "1"
zstd = "0.13"
prost = "*"
uuid = { version = "1", features = ["v7"] }
serde = { version = "1", features = ["derive"] }
serde_json = "1"
thiserror = "*"
tokio = { version = "1", features = ["sync", "fs", "rt", "macros"] }
async-trait = "0.1"
tracing = "0.1"
