[package]
name = "greego"
version = "0.1.0"
edition = "2021"
publish = false

[dependencies]
serde = { version = "=1.0.229", features = ["derive"] }
serde_json = "=1.0.154"
anyhow = "=1.0.104"
tokio = { version = "=1.54.1", features = ["rt-multi-thread", "macros", "sync", "time"] }
futures = "=0.3.34"
async-trait = "=0.1.92"
async-stream = "=0.3.6"
reqwest = { version = "=0.12.28", default-features = false, features = ["json", "stream", "rustls-tls"] }
log = "=0.4.35"
chrono = { version = "=0.4.45", features = ["serde"] }
simsimd = "=6.5.16"
async-openai = { version = "=0.43.0", features = ["embedding"] }
