[package]
name = "worker_core"
version = "0.1.0"
edition = "2021"
publish = false

[dependencies]
redis = { version = "=0.26.1", features = ["tokio-comp"] }
redis-work-queue = "=0.3.0"
tokio = { version = "=1.53.2", features = ["macros", "rt-multi-thread", "time"] }
