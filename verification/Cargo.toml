[package]
name = "maelstrom"
version = "0.1.0"
edition = "2021"
publish = false

[dependencies]
async-trait = "0.1"
eyre = "0.6"
futures = "0.3"
serde = { version = "1", features = ["derive"] }
serde_json = "1"
stable-eyre = "0.2"
tokio = { version = "1", features = ["rt-multi-thread", "macros", "io-util", "io-std", "sync", "time"] }
tracing = "0.1"
tracing-subscriber = { version = "0.3", features = ["env-filter", "fmt"] }
