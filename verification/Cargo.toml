[package]
name = "rdnsx_core"
version = "0.1.0"
edition = "2021"
publish = false

[dependencies]
rand = "0.8"
tokio = { version = "1", features = ["rt-multi-thread", "macros", "time", "sync"] }
hickory-resolver = "0.24"
clap = { version = "4", features = ["derive"] }
ipnetwork = "0.20"

[dev-dependencies]
serde_json = "1"
