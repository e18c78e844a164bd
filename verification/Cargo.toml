[package]
name = "copper"
version = "0.1.0"
edition = "2021"
publish = false

[dependencies]
tokio = { version = "1", features = ["full"] }
log = "*"
env_logger = "*"
colored = "*"
ctrlc = "*"
chrono = "0.4"
clap = { version = "4", features = ["derive"] }
serde = { version = "1", features = ["derive"] }
serde_json = "1"
reqwest = { version = "0.12", default-features = false }
once_cell = "*"
integer-encoding = "*"

[dev-dependencies]
rand = "0.8"
