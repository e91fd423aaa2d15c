[package]
name = "cepo"
version = "0.1.0"
edition = "2021"
publish = false

[dependencies]
async-trait = "*"
chrono = { version = "0.4", features = ["serde"] }
confy = "*"
dirs = "*"
env_logger = "*"
human-panic = "*"
hyper = { version = "0.14", features = ["full"] }
inquire = "*"
json = "*"
log = "*"
serde = { version = "1", features = ["derive"] }
serde_json = "1"
serde_qs = "*"
tokio = { version = "1", features = ["full"] }
