[package]
name = "harvest"
version = "0.1.0"
edition = "2021"
publish = false

[dependencies]
scraper = "*"
reqwest = "0.12"
tokio = { version = "1", features = ["rt-multi-thread", "macros", "time", "sync", "fs"] }
futures = "0.3"
serde = { version = "1", features = ["derive"] }
serde_json = "1"
colored = "2"
