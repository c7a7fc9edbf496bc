[package]
name = "samskara"
version = "0.1.0"
edition = "2021"
publish = false

[dependencies]
anyhow = "1"
blake3 = "1"
capnp = "0.27"
capnp-rpc = "0.27"
chrono = "0.4"
clap = { version = "4", features = ["derive"] }
dirs = "6"
futures = "0.3"
rmcp = { version = "1", features = ["server", "macros", "transport-io"] }
serde = { version = "1", features = ["derive"] }
serde_json = "1"
tokio = { version = "1", features = ["full"] }
tokio-util = { version = "0.7", features = ["compat"] }
tracing = "0.1"
tracing-subscriber = { version = "0.3", features = ["env-filter"] }
