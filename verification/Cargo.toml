[package]
name = "cf_picker"
version = "0.1.0"
edition = "2021"
publish = false

[dependencies]
ipnetwork = "0.21"
regex = "1"
hashbrown = "0.15"
rand = "0.9"
serde = { version = "1", features = ["derive"] }
serde_json = "1"
clap = { version = "4", features = ["derive"] }
figment = { version = "0.10", features = ["toml"] }
colored = "*"
comfy-table = "7"
crossterm = "0.28"
ratatui = "0.29"
csv = "1"
tokio = { version = "1", features = ["full"] }
futures-util = "0.3"
reqwest = { version = "0.12", default-features = false, features = ["rustls-tls"] }
