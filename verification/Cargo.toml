[package]
name = "ipc_orchestrator"
version = "0.1.0"
edition = "2021"
publish = false

[dependencies]
anyhow = "1"
crossbeam = "*"
futures = "0.3"
ipc-channel = "*"
log = "0.4"
serde = { version = "1", features = ["derive"] }
serde_bytes = "*"
tokio = { version = "1", features = ["process", "rt", "rt-multi-thread", "io-util"] }
