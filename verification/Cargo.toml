[package]
name = "iceberg_connector"
version = "0.1.0"
edition = "2021"
publish = false

[dependencies]
roaring = "*"
uuid = "*"
serde_json = "*"
arrow = { version = "*", default-features = false }
bytes = "*"
futures = "*"
tokio = { version = "*", features = ["rt", "rt-multi-thread", "sync", "time"] }
parquet = { version = "*", default-features = false, features = ["arrow"] }
