[package]
name = "laramux"
version = "0.1.0"
edition = "2021"
publish = false

[dependencies]
futures = "0.3"
nix = { version = "0.29", features = ["signal", "process"] }
ratatui = "0.29"
serde_json = "1"
tokio = { version = "1", features = ["full"] }
tokio-util = "0.7"
