[package]
name = "s3_browser"
version = "0.1.0"
edition = "2021"
publish = false

[dependencies]
anyhow = "1"
aws-config = "1"
aws-sdk-s3 = "1"
smol = "2"
tokio = { version = "1", features = ["rt-multi-thread"] }
