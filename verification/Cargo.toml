[package]
name = "switch_index"
version = "0.1.0"
edition = "2021"
publish = false

[dependencies]
walkdir = "2"
percent-encoding = "2"
serde = { version = "1", features = ["derive"] }
dotenv = "0.15"
tokio = { version = "1", features = ["full"] }
warp = "0.3"
hyper = "0.14"
listenfd = "1"
futures = "0.3"
futures-util = "0.3"
bytes = "1"
headers = "0.3"
tokio-util = { version = "0.7", features = ["io"] }
tracing = "0.1"

[dev-dependencies]
tempfile = "3"
