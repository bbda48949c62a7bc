[package]
name = "diskann_provider"
version = "0.1.0"
edition = "2021"
publish = false

[dependencies]
rand = "0.8"
bytes = "1"
mini-redis = "0.4"
tokio = { version = "1", features = ["macros", "rt-multi-thread"] }
futures = "0.3"
