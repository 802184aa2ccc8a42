[package]
name = "ethernetip"
version = "0.1.0"
edition = "2021"
publish = false

[dependencies]
tokio = { version = "1", features = ["net", "io-util", "time", "rt", "rt-multi-thread", "macros", "sync"] }
async-trait = "0.1"
anyhow = "1"
