[package]
name = "hyfetcher"
version = "0.1.0"
edition = "2021"
publish = false

[dependencies]
url = "*"
scraper = "*"
anyhow = "*"
clap = { version = "*", features = ["derive"] }
csv = "*"
env_logger = "*"
futures = "*"
reqwest = { version = "*", default-features = false, features = ["stream"] }
tokio = { version = "*", features = ["rt-multi-thread", "macros", "fs", "io-util"] }
walkdir = "*"
