[package]
name = "indicator_udf"
version = "0.1.0"
edition = "2021"
publish = false

[dependencies]
async-std = "1"
async-trait = "0.1"
kapacitor-udf = "*"
serde = { version = "1", features = ["derive"] }
serde_json = "1"
thiserror = "1"
tracing = "0.1"
