[package]
name = "botbridge"
version = "0.1.0"
edition = "2021"
publish = false

[dependencies]
serde = { version = "*", features = ["derive"] }
serde_json = "*"
unicode-segmentation = "*"
futures = "*"
reqwest = { version = "*", default-features = false, features = ["multipart"] }
async-stream = "*"
