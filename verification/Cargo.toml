[package]
name = "infisical"
version = "0.1.0"
edition = "2021"
publish = false

[dependencies]
anyhow = "1"
aws-lc-rs = "1"
data-encoding = "2"
komodo_client = "*"
reqwest = { version = "0.13", default-features = false, features = ["json", "rustls"] }
serde = { version = "1", features = ["derive"] }
serde_json = "1"
svi = "*"
tokio = { version = "1", features = ["sync", "macros", "rt-multi-thread"] }
tracing = "0.1"
urlencoding = "2"
zeroize = "1"
