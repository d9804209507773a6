[package]
name = "molo"
version = "0.3.0"
edition = "2021"
publish = false

[dependencies]
async-trait = "=0.1.92"
base64 = "=0.22.1"
futures = "=0.3.34"
indexmap = "=2.14.2"
reqwest = { version = "=0.13.5", default-features = false, features = ["json", "stream"] }
rmcp = { version = "=3.8.0", default-features = false, features = ["client", "transport-child-process", "transport-streamable-http-client-reqwest"] }
schemars = "1"
serde = { version = "=1.0.229", features = ["derive"] }
serde_json = "=1.0.154"
thiserror = "=2.0.21"
tokio = { version = "=1.54.1", features = ["fs", "macros", "process", "rt", "rt-multi-thread", "sync", "time"] }
tokio-util = "=0.7.20"
tracing = "=0.1.44"
