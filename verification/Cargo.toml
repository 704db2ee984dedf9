[package]
name = "manifest_rewrite"
version = "0.1.0"
edition = "2021"
publish = false

[dependencies]
iceberg = "*"
uuid = { version = "1", features = ["v7"] }
tokio = { version = "1", features = ["rt", "sync", "time", "macros"] }
async-trait = "*"
futures = "*"
rand = "*"
