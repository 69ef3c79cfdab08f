[package]
name = "decompose"
version = "0.1.0"
edition = "2021"
publish = false

[dependencies]
petgraph = "=0.5.1"
regex = "1"
nix = { version = "0.29", features = ["signal", "process"] }
tokio = { version = "0.2", features = ["full"] }
futures = "0.3"
reqwest = { version = "0.10", default-features = false }
serde = { version = "1", features = ["derive"] }
serde_any = { version = "0.5", default-features = false, features = ["toml", "json", "yaml"] }
shellexpand = "2"
clap = "2"
log = "0.4"
simple_logger = "1"
chrono = "0.4"
signal-hook = "0.1"
subprocess = "0.2"
