[package]
name = "genie"
version = "0.2.4"
edition = "2021"
publish = false

[dependencies]
serde_json = "1"
anyhow = "1"
clap = { version = "4", features = ["derive"] }
tokio = { version = "1", features = ["rt-multi-thread"] }
futures = "0.3"
arrow-array = "*"
arrow-schema = "*"
model2vec-rs = "*"
