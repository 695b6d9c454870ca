[package]
name = "my_redis"
version = "0.1.0"
edition = "2021"
publish = false

[dependencies]
bytes = "1"
tokio = { version = "1", features = ["rt", "rt-multi-thread", "macros", "net", "io-util", "sync", "time", "signal"] }
tokio-stream = "0.1"
async-stream = "0.3"
clap = { version = "4", features = ["derive"] }
