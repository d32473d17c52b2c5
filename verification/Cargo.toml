[package]
name = "combine_latest"
version = "0.1.0"
edition = "2021"
publish = false

[dependencies]
futures-core = "0.3"
futures-util = "0.3"

[dev-dependencies]
futures = "0.3"
