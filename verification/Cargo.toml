[package]
name = "kv_store"
version = "0.1.0"
edition = "2021"
publish = false

[dependencies]
byteorder = "=1.5.0"
serde = { version = "=1.0.229", features = ["derive"] }
serde_json = "=1.0.154"
tokio = { version = "=1.54.1", features = ["rt", "rt-multi-thread", "io-util", "sync", "macros"] }
tracing = "=0.1.44"
reqwest = { version = "=0.13.5", default-features = false, features = ["json"] }
actix-web = { version = "=4.18.1", default-features = false, features = ["macros"] }
openraft = { version = "=0.9.25", features = ["serde", "storage-v2", "generic-snapshot-data", "single-term-leader"] }
rocksdb = { version = "=0.25.0", default-features = false, features = ["bindgen-runtime"] }
