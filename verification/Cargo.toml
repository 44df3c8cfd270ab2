[package]
name = "treasure_quest"
version = "0.1.0"
edition = "2021"
publish = false

[dependencies]
fastrand = "*"
uuid = { version = "*", features = ["v4"] }
serde = { version = "*", features = ["derive"] }
schemars = "*"
rmcp = { version = "*", features = ["server", "transport-io"] }
tokio = { version = "*", features = ["rt-multi-thread", "macros", "sync", "io-std"] }
tracing = "*"
tracing-subscriber = "*"
