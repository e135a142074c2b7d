[package]
name = "producer"
version = "0.1.0"
edition = "2021"
publish = false
rust-version = "1.95"

[dependencies]
env_logger = { version = "*", default-features = false }
log = "*"
polars = { version = "*", default-features = false, features = ["lazy", "parquet"] }
prost = "*"
rdkafka = "*"
reqwest = { version = "*", default-features = false, features = ["json"] }
schema_registry_converter = { version = "*", features = ["easy", "proto_raw"] }
serde_json = "*"
tokio = { version = "*", features = ["macros", "rt-multi-thread"] }
