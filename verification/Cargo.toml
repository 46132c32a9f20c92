[package]
name = "cache"
version = "0.1.0"
edition = "2021"
publish = false

[dependencies]
rmp-serde = "1"
mobc-redis = "0.7"
twilight-model = "0.8"
twilight-gateway = "0.8"
futures = "0.3"
tokio = { version = "1", features = ["rt-multi-thread", "macros"] }
log = "0.4"
