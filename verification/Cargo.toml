[package]
name = "cfg_generator"
version = "0.1.0"
edition = "2021"
publish = false

[dependencies]
petgraph = "0.6"
bytes = "1"
serde = { version = "1", features = ["derive"] }
serde_json = "1"
thiserror = "1"
tokio = { version = "1", features = ["full"] }
tokio-util = { version = "0.7", features = ["codec"] }
tokio-stream = { version = "0.1", features = ["net"] }
futures = "0.3"
clap = { version = "4", features = ["derive"] }
anyhow = "1"
log = "0.4"
