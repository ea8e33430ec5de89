[package]
name = "dynamo-core"
version = "0.1.0"
edition = "2021"
publish = false

[dependencies]
anyhow = "1"
async-stream = "0.3"
async-trait = "0.1"
axum = { version = "0.8", default-features = false, features = ["http1", "tokio"] }
bytes = "1"
crossbeam-queue = "0.3"
dashmap = "6"
derive_builder = "0.20"
futures = "0.3"
local-ip-address = "0.6"
once_cell = "1"
parking_lot = "0.12"
proc-macro2 = "1"
prometheus = { version = "0.14", default-features = false }
pyo3 = { version = "0.23", features = ["abi3-py310", "extension-module"] }
quinn = { version = "0.11", default-features = false, features = ["runtime-tokio", "rustls-ring"] }
rcgen = "0.13"
rmp-serde = "1"
rustls = { version = "0.23", default-features = false, features = ["ring", "std", "tls12"] }
serde = { version = "1", features = ["derive"] }
serde_json = "1"
sha2 = "0.10"
syn = { version = "2", features = ["full", "extra-traits"] }
thiserror = "2"
tokio = { version = "1", features = ["full"] }
tokio-rustls = { version = "0.26", default-features = false, features = ["ring", "tls12"] }
tokio-util = { version = "0.7", features = ["codec"] }
tracing = "0.1"
uuid = { version = "1", features = ["v4"] }
xxhash-rust = { version = "0.8", features = ["xxh3"] }
