[package]
name = "forge"
version = "1.2.0"
edition = "2021"
publish = false

[dependencies]
bollard = "0.19"
chrono = { version = "0.4", features = ["serde"] }
clap = { version = "4", features = ["derive"] }
colored = "3"
crossterm = "0.28"
dotenvy = "0.15"
futures-util = "0.3"
indicatif = "0.17"
ratatui = "0.29"
serde = { version = "1", features = ["derive"] }
serde_json = "1"
serde_yaml = "0.9"
tokio = { version = "1", features = ["full"] }
uuid = { version = "1", features = ["v4"] }
