[package]
name = "clamav_client"
version = "0.1.0"
edition = "2021"
publish = false

[dependencies]
async-fs = "*"
async-net = "=2.0.0"
async-trait = "=0.1.92"
blocking = "=1.7.0"
bytes = "=1.12.1"
futures-lite = "=2.6.1"
tokio = { version = "=1.53.2", default-features = false, features = ["net", "io-util", "fs"] }
tokio-stream = "=0.1.19"
