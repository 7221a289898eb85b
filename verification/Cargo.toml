[package]
name = "blastdns"
version = "0.1.0"
edition = "2021"
publish = false

[dependencies]
anyhow = "1"
clap = { version = "4", features = ["derive"] }
crossfire = "2"
futures = "0.3"
hickory-client = { version = "0.25", features = ["serde"] }
hickory-resolver = { version = "0.25", features = ["system-config", "tokio"] }
libc = "0.2"
serde = { version = "1", features = ["derive"] }
serde_json = "1"
thiserror = "2"
tokio = { version = "1", features = ["macros", "net", "rt-multi-thread", "sync", "time"] }
tracing = "0.1"
