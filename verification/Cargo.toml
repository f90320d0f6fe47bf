[package]
name = "zed-rules-sync"
version = "0.1.0"
edition = "2021"
publish = false

[dependencies]
uuid = { version = "1", features = ["v5", "serde"] }
serde = { version = "1", features = ["derive"] }
chrono = { version = "0.4", features = ["serde"] }
heed = "0.21"
anyhow = "1"
clap = { version = "4", features = ["derive"] }
