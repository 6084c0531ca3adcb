[package]
name = "jishuken"
version = "0.1.0"
edition = "2021"
publish = false

[dependencies]
anyhow = "1"
blake3 = "1"
chrono = { version = "0.4", features = ["serde"] }
clap = { version = "4", features = ["derive", "env"] }
regex = "1"
rmcp = { version = "*", features = ["server", "transport-io", "macros", "schemars"] }
serde = { version = "1", features = ["derive"] }
serde_json = "1"
tempfile = "3"
thiserror = "2"
tokio = { version = "1", features = ["rt-multi-thread", "macros", "time", "io-std"] }
toml = "*"
unicode-normalization = "*"
