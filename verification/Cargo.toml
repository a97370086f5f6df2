[package]
name = "databus"
version = "0.1.0"
edition = "2021"
publish = false

[dependencies]
tokio = { version = "1", features = ["sync", "time", "rt", "macros"] }
tokio-util = "0.7"
arc-swap = "1"
scraper = "*"
url = "2"
bytes = "1"
async-trait = "0.1"
thiserror = "2"
reqwest = { version = "0.12", default-features = false }
arrayvec = "0.7"
rustc-hash = "2"
dashmap = "6"
