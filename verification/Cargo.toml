[package]
name = "rmq_rpc"
version = "0.1.0"
edition = "2021"
publish = false

[dependencies]
uuid = { version = "0.8", features = ["v4"] }
lapin = { version = "1", default-features = false }
tokio-amqp = { version = "1", default-features = false }
tokio = { version = "1", features = ["rt-multi-thread", "macros", "sync", "time"] }
futures-util = "0.3"
