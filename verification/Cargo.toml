[package]
name = "etcd_store"
version = "0.1.0"
edition = "2021"
publish = false

[dependencies]
etcd-client = "0.8.4"
tokio = { version = "1", features = ["sync", "rt", "macros"] }
