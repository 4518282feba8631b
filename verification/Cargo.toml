[package]
name = "desqta"
version = "0.1.0"
edition = "2021"
publish = false

[dependencies]
uuid = "=1.29.0"
base64 = "=0.22.1"
url = "=2.5.8"
serde = { version = "=1.0.229", features = ["derive"] }
serde_json = "=1.0.154"
anyhow = "=1.0.104"
dirs-next = "=2.0.0"
once_cell = "=1.21.4"
reqwest = { version = "=0.12.28", default-features = false, features = ["json", "cookies", "rustls-tls"] }
tokio = { version = "=1.54.1", features = ["time"] }
rss = "=2.1.2"
xmltree = { version = "=0.12.0", features = ["attribute-sorted"] }
