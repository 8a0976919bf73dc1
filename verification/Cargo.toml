[package]
name = "bucket_dl"
version = "0.1.0"
edition = "2021"
publish = false

[dependencies]
tokio = { version = "1", features = ["rt-multi-thread", "macros", "sync", "time"] }
reqwest = { version = "0.12", default-features = false, features = ["stream"] }
futures-util = "0.3"
indicatif = "0.17"
