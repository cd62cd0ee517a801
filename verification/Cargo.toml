[package]
name = "simple_concurrent_get"
version = "0.1.0"
edition = "2021"
publish = false

[dependencies]
reqwest = { version = "0.12", default-features = false, features = ["gzip", "deflate"] }
futures-util = "0.3"
