[package]
name = "payments_engine"
version = "0.1.0"
edition = "2021"
publish = false

[dependencies]
fastnum = "*"
serde = { version = "1", features = ["derive"] }
csv-async = { version = "*", features = ["tokio"] }
tokio = { version = "1", features = ["fs", "io-std", "io-util", "macros", "rt-multi-thread"] }
futures = "*"
