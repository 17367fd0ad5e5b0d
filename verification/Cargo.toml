[package]
name = "protocol"
version = "0.1.0"
edition = "2021"
publish = false

[dependencies]
indexmap = "2"
thiserror = "2"
tokio = { version = "1", features = ["sync", "rt", "rt-multi-thread", "time", "macros"] }
async-trait = "0.1"
tracing = "0.1"
