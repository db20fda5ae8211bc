[package]
name = "wol-proxy"
version = "0.1.0"
edition = "2021"
publish = false

[dependencies]
anyhow = "=1.0.104"
clap = { version = "=4.6.7", features = ["derive"] }
keepawake = "*"
ping-rs = "=0.1.2"
tokio = { version = "=1.54.1", features = ["rt", "rt-multi-thread", "macros", "net", "io-util", "sync", "time"] }
wake-on-lan = "=0.2.0"
