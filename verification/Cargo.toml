[package]
name = "phlow"
version = "0.1.0"
edition = "2021"
publish = false

[dependencies]
crossbeam = "=0.8.5"
tokio = { version = "=1.53.2", default-features = false, features = ["sync"] }
clap = "=4.6.7"
libloading = "=0.9.0"
regex = "=1.13.1"
serde = { version = "=1.0.229", features = ["derive"] }
serde_json = "=1.0.151"
serde_yaml = "=0.9.34"
toml = "=1.1.7"
tracing = "=0.1.44"
rhai = { version = "=1.26.1", features = ["serde"] }
