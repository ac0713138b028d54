[package]
name = "browser_cli"
version = "0.1.0"
edition = "2021"
publish = false

[dependencies]
serde_json = { version = "=1.0.154", features = ["preserve_order", "unbounded_depth"] }
serde = { version = "=1.0.229", features = ["derive"] }
anyhow = "=1.0.104"
base64 = "=0.22.1"
clap = { version = "=4.6.7", features = ["derive"] }
futures = "=0.3.34"
reqwest = { version = "=0.12.28", default-features = false, features = ["json"] }
tokio = { version = "=1.54.1", features = ["full"] }
tokio-tungstenite = "=0.21.0"
urlencoding = "=2.1.3"
